//! The scalar flow field: a direction angle for every plane position.
//!
//! The base field multiplies a horizontal rational term, centered on the
//! canvas midline, with a vertical quadratic term that compares the squared
//! ordinate against a fraction of the squared canvas height, and scales the
//! product to a full turn. On top of that comes a directional bias: the
//! closer a point lies to the configured focal point, the more its
//! direction collapses toward straight down (the positive y axis), blended
//! through the unit vectors and recovered with the arc tangent.
//!
//! All arithmetic is exact over integers. Quantities that leave the
//! canvas far behind are clamped before they are squared, so the field is
//! total over the whole plane; inside the canvas no clamp ever binds.

use vstd::prelude::*;
use crate::fixed::{spec_tdiv, spec_clamp, tdiv, clamp, lemma_tdiv_le};
use crate::geometry::{Point, bounded, COORD_LIMIT};
use crate::trig;

verus! {

/// Parameters of one generation pass: canvas bounds in pixels, the lattice
/// and path step spacing in pixels, and the optional focal point of the
/// directional bias, in fixed-point coordinates.
#[derive(Clone, Copy, Debug)]
pub struct FlowConfig {
    pub width: u32,
    pub height: u32,
    pub step: u32,
    pub focal: Option<Point>,
}

/// Canvas bounds and step spacing the geometry accepts: nonzero, and small
/// enough that every intermediate product below fits its integer type.
pub open spec fn valid_config(cfg: FlowConfig) -> bool {
    &&& 1 <= cfg.width <= 4096
    &&& 1 <= cfg.height <= 4096
    &&& 1 <= cfg.step <= 4096
    &&& match cfg.focal {
        Option::Some(focal) => bounded(focal),
        Option::None => true,
    }
}

/// The horizontal term of the base field, in fixed-point units: a rational
/// pull toward the canvas midline minus a linear drift, clamped to one
/// turn's worth of magnitude.
pub open spec fn spec_x_term(p: Point, cfg: FlowConfig) -> int {
    let w = cfg.width as int * 1024;
    let half_w = cfg.width as int * 512;
    let c = spec_clamp(p.x as int - half_w, -2 * w, 2 * w);
    let a = spec_tdiv(w * 1024, spec_tdiv(c, 5) - w);
    let b = spec_tdiv(1024 * (2 * c - half_w), w);
    spec_clamp(a - b, -65536, 65536)
}

/// The vertical term of the base field: the squared ordinate minus seven
/// tenths of the squared canvas height, in squared fixed-point units.
pub open spec fn spec_y_num(p: Point, cfg: FlowConfig) -> int {
    let h = cfg.height as int * 1024;
    let cy = spec_clamp(p.y as int, -2 * h, 2 * h);
    cy * cy - spec_tdiv(7 * h * h, 10)
}

/// The base field direction: the product of the two terms, scaled so that
/// a field value of one is a full turn, wrapped into `[0, TURN)`.
pub open spec fn spec_raw_angle(p: Point, cfg: FlowConfig) -> int {
    let h = cfg.height as int * 1024;
    let q = spec_tdiv(spec_x_term(p, cfg) * spec_y_num(p, cfg) * 65536, 2 * h * h * 1024);
    (spec_clamp(q, -134217728, 134217728) + 134217728) % 65536
}

/// The bias weight at `p`: `w^2 / (16 d^2 + w^2)` in units of 1024, where
/// `d` is the distance from `p` to the focal point. It is 1024 at the
/// focal point and falls strictly with distance.
pub open spec fn spec_bias_factor(p: Point, focal: Point, cfg: FlowConfig) -> int {
    let w = cfg.width as int * 1024;
    let s = (p.x - focal.x) * (p.x - focal.x) + (p.y - focal.y) * (p.y - focal.y);
    spec_tdiv(w * w * 1024, 16 * s + w * w)
}

/// The biased direction: the raw direction's unit vector blended with the
/// fixed bias direction (straight down), weighted by the bias factor, and
/// turned back into an angle.
pub open spec fn spec_bias_angle(p: Point, focal: Point, cfg: FlowConfig, raw: int) -> int {
    let f = spec_bias_factor(p, focal, cfg);
    let nx = spec_tdiv((1024 - f) * trig::spec_cos(raw), 1024);
    let ny = spec_tdiv((1024 - f) * trig::spec_sin(raw), 1024) + 4 * f;
    trig::spec_atan2(ny, nx)
}

/// The direction of the flow at `p`: the base field direction, biased
/// toward the focal point's pull when one is configured.
pub open spec fn spec_angle_at(p: Point, cfg: FlowConfig) -> int {
    let raw = spec_raw_angle(p, cfg);
    match cfg.focal {
        Option::Some(focal) => spec_bias_angle(p, focal, cfg, raw),
        Option::None => raw,
    }
}

/// The field direction lies in `[0, TURN)` for every point and every
/// valid configuration.
pub proof fn lemma_angle_at_range(p: Point, cfg: FlowConfig)
    ensures
        0 <= spec_angle_at(p, cfg) < trig::TURN,
{
    match cfg.focal {
        Option::Some(focal) => {
            let raw = spec_raw_angle(p, cfg);
            trig::lemma_atan2_range(
                spec_tdiv((1024 - spec_bias_factor(p, focal, cfg)) * trig::spec_sin(raw), 1024)
                    + 4 * spec_bias_factor(p, focal, cfg),
                spec_tdiv((1024 - spec_bias_factor(p, focal, cfg)) * trig::spec_cos(raw), 1024),
            );
        },
        Option::None => {},
    }
}

/// The base field direction at `p`, in angle units.
pub fn raw_angle(p: &Point, cfg: &FlowConfig) -> (r: u64)
    requires
        valid_config(*cfg),
        bounded(*p),
    ensures
        r == spec_raw_angle(*p, *cfg),
        r < trig::TURN,
{
    let w: i128 = (cfg.width as i128) * 1024;
    let half_w: i128 = (cfg.width as i128) * 512;
    let h: i128 = (cfg.height as i128) * 1024;
    let c: i128 = clamp((p.x as i128) - half_w, -(2 * w), 2 * w);
    let a: i128 = tdiv(w * 1024, tdiv(c, 5) - w);
    let b: i128 = tdiv(1024 * (2 * c - half_w), w);
    let x_term: i128 = clamp(a - b, -65536, 65536);
    let cy: i128 = clamp(p.y as i128, -(2 * h), 2 * h);
    proof {
        assert(0 <= cy * cy <= 70368744177664int) by (nonlinear_arith)
            requires
                -8388608 <= cy <= 8388608,
        ;
        assert(0 <= 7 * h * h <= 123145302310912int) by (nonlinear_arith)
            requires
                0 <= h <= 4194304,
        ;
    }
    let y_num: i128 = cy * cy - tdiv(7 * h * h, 10);
    proof {
        assert(
            -324518553658426726783156020576256int <= x_term * y_num * 65536
                <= 324518553658426726783156020576256int
        ) by (nonlinear_arith)
            requires
                -65536 <= x_term <= 65536,
                -281474976710656 <= y_num <= 281474976710656,
        ;
        assert(0 <= 2 * h * h * 1024 <= 36028797018963968int) by (nonlinear_arith)
            requires
                0 <= h <= 4194304,
        ;
    }
    let q: i128 = tdiv(x_term * y_num * 65536, 2 * h * h * 1024);
    let wrapped: i128 = (clamp(q, -134217728, 134217728) + 134217728) % 65536;
    wrapped as u64
}

/// The bias weight at `p`, in units of 1024.
fn bias_factor(p: &Point, focal: &Point, cfg: &FlowConfig) -> (r: i64)
    requires
        valid_config(*cfg),
        bounded(*p),
        bounded(*focal),
    ensures
        r == spec_bias_factor(*p, *focal, *cfg),
        0 <= r <= 1024,
{
    let w: i128 = (cfg.width as i128) * 1024;
    let dx: i128 = (p.x as i128) - (focal.x as i128);
    let dy: i128 = (p.y as i128) - (focal.y as i128);
    proof {
        let m: int = 2 * COORD_LIMIT;
        assert(0 <= dx * dx <= m * m && 0 <= dy * dy <= m * m) by (nonlinear_arith)
            requires
                -m <= dx <= m,
                -m <= dy <= m,
        ;
        assert(0 < w * w <= 17592186044416int) by (nonlinear_arith)
            requires
                1024 <= w <= 4194304,
        ;
    }
    let s: i128 = dx * dx + dy * dy;
    let den: i128 = 16 * s + w * w;
    proof {
        lemma_tdiv_le((w * w * 1024) as int, den as int, 1024);
        assert(w * w * 1024 <= 1024 * den) by (nonlinear_arith)
            requires
                0 <= s,
                0 < w * w,
                den == 16 * s + w * w,
        ;
    }
    let f: i128 = tdiv(w * w * 1024, den);
    f as i64
}

/// The direction of the flow at `p`, in angle units in `[0, TURN)`.
/// Same point, same configuration: same direction, always.
pub fn angle_at(p: &Point, cfg: &FlowConfig) -> (r: u64)
    requires
        valid_config(*cfg),
        bounded(*p),
    ensures
        r == spec_angle_at(*p, *cfg),
        r < trig::TURN,
{
    let raw: u64 = raw_angle(p, cfg);
    match cfg.focal {
        Option::Some(focal) => {
            let f: i64 = bias_factor(p, &focal, cfg);
            let cos_raw: i64 = trig::cos(raw);
            let sin_raw: i64 = trig::sin(raw);
            let g: i128 = (1024 - f) as i128;
            proof {
                assert(
                    -4194304 <= g * (cos_raw as i128) <= 4194304int
                        && -4194304 <= g * (sin_raw as i128) <= 4194304int
                ) by (nonlinear_arith)
                    requires
                        0 <= g <= 1024,
                        -4096 <= cos_raw as i128 <= 4096,
                        -4096 <= sin_raw as i128 <= 4096,
                ;
            }
            let nx: i128 = tdiv(g * (cos_raw as i128), 1024);
            let ny: i128 = tdiv(g * (sin_raw as i128), 1024) + 4 * (f as i128);
            trig::atan2(ny as i64, nx as i64)
        },
        Option::None => raw,
    }
}

} // verus!
