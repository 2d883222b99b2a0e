//! The path tracer: walks the flow field from a seed point.
//!
//! Starting at a seed, each step evaluates the field's direction at the
//! current point and advances by the configured step length along it. The
//! result always holds exactly one more point than the number of steps,
//! with the seed first. Paths are free to leave the canvas; the consumer
//! clips them.

use vstd::prelude::*;
use crate::fixed::{spec_tdiv, tdiv};
use crate::geometry::{Point, bounded, COORD_LIMIT};
use crate::flow::{FlowConfig, valid_config, spec_angle_at, angle_at};
use crate::trig;

verus! {

/// Largest seed coordinate magnitude (in fixed-point units) the tracer
/// accepts; every canvas point is far inside it.
pub const SEED_LIMIT: i64 = 0x80_0000_0000;

/// Largest distance (in fixed-point units) one step can cover.
pub const STEP_LIMIT: i64 = 4194304;

/// One step along the field: the step length scaled by the direction's
/// cosine and sine, in fixed-point units.
pub open spec fn spec_advance(p: Point, cfg: FlowConfig) -> Point {
    let a = spec_angle_at(p, cfg);
    Point {
        x: (p.x + spec_tdiv(cfg.step as int * trig::spec_cos(a), 4)) as i64,
        y: (p.y + spec_tdiv(cfg.step as int * trig::spec_sin(a), 4)) as i64,
    }
}

/// The traced path: the seed, then each point advanced from the previous
/// one, `n` steps in all.
pub open spec fn spec_trace(seed: Point, cfg: FlowConfig, n: int) -> Seq<Point>
    decreases n,
{
    if n <= 0 {
        seq![seed]
    } else {
        let prefix = spec_trace(seed, cfg, n - 1);
        prefix.push(spec_advance(prefix.last(), cfg))
    }
}

/// One step along the field from `p`.
pub fn advance(p: &Point, cfg: &FlowConfig) -> (q: Point)
    requires
        valid_config(*cfg),
        -COORD_LIMIT + STEP_LIMIT <= p.x <= COORD_LIMIT - STEP_LIMIT,
        -COORD_LIMIT + STEP_LIMIT <= p.y <= COORD_LIMIT - STEP_LIMIT,
    ensures
        q == spec_advance(*p, *cfg),
        -STEP_LIMIT <= q.x - p.x <= STEP_LIMIT,
        -STEP_LIMIT <= q.y - p.y <= STEP_LIMIT,
        bounded(q),
{
    let a: u64 = angle_at(p, cfg);
    let c: i64 = trig::cos(a);
    let s: i64 = trig::sin(a);
    proof {
        assert(
            -16777216 <= (cfg.step as i128) * (c as i128) <= 16777216int
                && -16777216 <= (cfg.step as i128) * (s as i128) <= 16777216int
        ) by (nonlinear_arith)
            requires
                0 <= cfg.step as i128 <= 4096,
                -4096 <= c as i128 <= 4096,
                -4096 <= s as i128 <= 4096,
        ;
    }
    let dx: i128 = tdiv((cfg.step as i128) * (c as i128), 4);
    let dy: i128 = tdiv((cfg.step as i128) * (s as i128), 4);
    proof {
        crate::fixed::lemma_tdiv_le((cfg.step as i128) * (c as i128) as int, 4, STEP_LIMIT as int);
        crate::fixed::lemma_tdiv_le((cfg.step as i128) * (s as i128) as int, 4, STEP_LIMIT as int);
    }
    Point { x: p.x + (dx as i64), y: p.y + (dy as i64) }
}

/// Walks the field for `step_count` steps from `seed`. The path holds
/// exactly `step_count + 1` points and starts with the seed itself.
pub fn trace(seed: &Point, cfg: &FlowConfig, step_count: usize) -> (path: Vec<Point>)
    requires
        valid_config(*cfg),
        -SEED_LIMIT <= seed.x <= SEED_LIMIT,
        -SEED_LIMIT <= seed.y <= SEED_LIMIT,
        step_count <= 65536,
    ensures
        path@ == spec_trace(*seed, *cfg, step_count as int),
        path@.len() == step_count + 1,
        path@[0] == *seed,
{
    let mut path: Vec<Point> = Vec::new();
    path.push(*seed);
    let mut current: Point = *seed;
    let mut i: usize = 0;
    while i < step_count
        invariant
            valid_config(*cfg),
            -SEED_LIMIT <= seed.x <= SEED_LIMIT,
            -SEED_LIMIT <= seed.y <= SEED_LIMIT,
            i <= step_count <= 65536,
            path@ == spec_trace(*seed, *cfg, i as int),
            path@.len() == i + 1,
            current == path@.last(),
            -SEED_LIMIT - STEP_LIMIT * i <= current.x <= SEED_LIMIT + STEP_LIMIT * i,
            -SEED_LIMIT - STEP_LIMIT * i <= current.y <= SEED_LIMIT + STEP_LIMIT * i,
        decreases step_count - i,
    {
        let next: Point = advance(&current, cfg);
        path.push(next);
        current = next;
        i = i + 1;
    }
    proof {
        assert(path@[0] == spec_trace(*seed, *cfg, step_count as int)[0]);
        assert(spec_trace(*seed, *cfg, step_count as int)[0] == *seed) by {
            lemma_trace_first(*seed, *cfg, step_count as int);
        }
    }
    path
}

/// The first point of every traced path is the seed.
pub proof fn lemma_trace_first(seed: Point, cfg: FlowConfig, n: int)
    requires
        0 <= n,
    ensures
        spec_trace(seed, cfg, n).len() == n + 1,
        spec_trace(seed, cfg, n)[0] == seed,
    decreases n,
{
    if n > 0 {
        lemma_trace_first(seed, cfg, n - 1);
    }
}

/// The number of steps a traced path takes: the canvas perimeter's half,
/// scaled down, so larger canvases trace longer paths.
pub fn path_step_count(cfg: &FlowConfig) -> (n: usize)
    requires
        valid_config(*cfg),
    ensures
        n == spec_tdiv(cfg.width + cfg.height, 200),
        n <= 65536,
{
    ((cfg.width + cfg.height) / 200) as usize
}

} // verus!
