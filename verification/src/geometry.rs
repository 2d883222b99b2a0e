//! Plane geometry over fixed-point coordinates.
//!
//! A [`Point`] stores its coordinates scaled by [`FP`], so a plane position
//! `(x, y)` in pixels is stored as `(x * FP, y * FP)`. Distances are always
//! compared through their squares, which keeps every test exact.

use vstd::prelude::*;

verus! {

/// Scale factor of fixed-point plane coordinates: one pixel is `FP` units.
pub const FP: i64 = 1024;

/// Largest coordinate magnitude (in `FP` units) the geometry works with.
/// Canvases are a few hundred pixels wide, so this is far more room than
/// any traced path can leave the canvas by.
pub const COORD_LIMIT: i64 = 0x100_0000_0000;

/// Largest radius (in pixels) the geometry works with.
pub const RADIUS_LIMIT: u32 = 0x10_0000;

/// A plane position, in fixed-point coordinates ([`FP`] units per pixel).
#[derive(Clone, Copy, Debug, PartialEq, Eq, Structural)]
pub struct Point {
    pub x: i64,
    pub y: i64,
}

/// A grid position in whole pixels, as drawn by the samplers.
#[derive(Clone, Copy, Debug, PartialEq, Eq, Structural)]
pub struct UsizePoint {
    pub x: usize,
    pub y: usize,
}

/// A placed circle: fixed-point center and radius in whole pixels.
#[derive(Clone, Copy, Debug, PartialEq, Eq, Structural)]
pub struct Circle {
    pub center: Point,
    pub radius: u32,
}

/// Both coordinates of `p` are within [`COORD_LIMIT`].
pub open spec fn bounded(p: Point) -> bool {
    &&& -COORD_LIMIT <= p.x <= COORD_LIMIT
    &&& -COORD_LIMIT <= p.y <= COORD_LIMIT
}

impl Point {
    /// A point at whole-pixel coordinates.
    pub fn from_pixels(x: usize, y: usize) -> (p: Point)
        requires
            x <= 0x1000_0000,
            y <= 0x1000_0000,
        ensures
            p.x == x * FP,
            p.y == y * FP,
            bounded(p),
    {
        Point { x: (x as i64) * FP, y: (y as i64) * FP }
    }
}

/// The squared distance between two points, in squared `FP` units.
pub open spec fn dist_sq(a: Point, b: Point) -> int {
    (a.x - b.x) * (a.x - b.x) + (a.y - b.y) * (a.y - b.y)
}

/// `p` lies within distance `rad` pixels of `q`.
pub open spec fn within(p: Point, q: Point, rad: int) -> bool {
    dist_sq(p, q) <= (rad * FP) * (rad * FP)
}

/// Whether `p` lies in circle `c` inflated by `extra` pixels: its distance
/// to the center is at most `c.radius + extra`.
pub fn in_circle(p: &Point, c: &Circle, extra: u32) -> (r: bool)
    requires
        bounded(*p),
        bounded(c.center),
        c.radius + extra <= RADIUS_LIMIT,
    ensures
        r == within(*p, c.center, c.radius + extra),
{
    let dx: i128 = (p.x as i128) - (c.center.x as i128);
    let dy: i128 = (p.y as i128) - (c.center.y as i128);
    let reach: i128 = ((c.radius as i64 + extra as i64) * FP) as i128;
    proof {
        let m: int = 2 * COORD_LIMIT;
        assert(0 <= dx * dx <= m * m && 0 <= dy * dy <= m * m) by (nonlinear_arith)
            requires
                -m <= dx <= m,
                -m <= dy <= m,
        ;
        assert(0 <= reach * reach <= 0x4000_0000_0000_0000) by (nonlinear_arith)
            requires
                0 <= reach <= 0x4000_0000,
        ;
    }
    dx * dx + dy * dy <= reach * reach
}

/// Distance is symmetric, so containment within a radius is too.
pub proof fn lemma_within_symmetric(p: Point, q: Point, rad: int)
    ensures
        within(p, q, rad) == within(q, p, rad),
{
    assert((p.x - q.x) * (p.x - q.x) == (q.x - p.x) * (q.x - p.x) && (p.y - q.y) * (p.y - q.y)
        == (q.y - p.y) * (q.y - p.y)) by (nonlinear_arith);
}

/// Circle containment is monotonic in the radius: a point inside at radius
/// `rad` stays inside at any larger radius.
pub proof fn lemma_within_monotonic(p: Point, q: Point, rad: int, larger: int)
    requires
        within(p, q, rad),
        0 <= rad <= larger,
    ensures
        within(p, q, larger),
{
    assert((rad * FP) * (rad * FP) <= (larger * FP) * (larger * FP)) by (nonlinear_arith)
        requires
            0 <= rad <= larger,
            FP > 0,
    ;
}

} // verus!
