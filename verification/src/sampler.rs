//! Rejection sampling of points in a bounded rectangle.
//!
//! A candidate is drawn uniformly inside the bounds and discarded while it
//! violates the exclusion at hand — a list of already used points, or the
//! placed circles inflated by a clearance. Density parameters are expected
//! to always admit a solution, so running out of the fixed retry budget is
//! a fatal [`ExhaustedError`], not something to retry past.

use vstd::prelude::*;
use crate::geometry::{Point, UsizePoint, Circle, bounded, within, RADIUS_LIMIT};
use crate::rng::RandomSource;

verus! {

/// How many consecutive rejections the samplers tolerate before they give
/// the density up as unsatisfiable.
pub const ATTEMPT_CEILING: usize = 10000;

/// The retry budget ran out: the exclusion left no room to place anything.
#[derive(Clone, Copy, Debug, PartialEq, Eq, Structural)]
pub struct ExhaustedError;

/// Whether `points` holds `p`.
pub fn contains_point(points: &Vec<UsizePoint>, p: &UsizePoint) -> (r: bool)
    ensures
        r == points@.contains(*p),
{
    let mut k: usize = 0;
    while k < points.len()
        invariant
            k <= points@.len(),
            forall|j: int| 0 <= j < k ==> points@[j] != *p,
        decreases points@.len() - k,
    {
        if points[k].x == p.x && points[k].y == p.y {
            proof {
                assert(points@[k as int] == *p);
            }
            return true;
        }
        k = k + 1;
    }
    false
}

/// Draws a whole-pixel point inside `width` by `height` that is not in
/// `used`; after the retry budget is spent on occupied points, fails with
/// [`ExhaustedError`]. When every point of the rectangle is already used,
/// failure is certain; when none is, success is.
pub fn random_point(
    rng: &mut RandomSource,
    width: u32,
    height: u32,
    used: &Vec<UsizePoint>,
) -> (r: Result<UsizePoint, ExhaustedError>)
    requires
        1 <= width,
        1 <= height,
    ensures
        match r {
            Result::Ok(p) => p.x < width && p.y < height && !used@.contains(p),
            Result::Err(e) => true,
        },
        (forall|p: UsizePoint|
            p.x < width && p.y < height ==> used@.contains(p)) ==> r is Err,
        (forall|p: UsizePoint|
            p.x < width && p.y < height ==> !used@.contains(p)) ==> r is Ok,
{
    let mut attempt: usize = 0;
    while attempt < ATTEMPT_CEILING
        invariant
            1 <= width,
            1 <= height,
            attempt > 0 ==> exists|p: UsizePoint|
                p.x < width && p.y < height && used@.contains(p),
        decreases ATTEMPT_CEILING - attempt,
    {
        let x: u32 = rng.below(width);
        let y: u32 = rng.below(height);
        let p = UsizePoint { x: x as usize, y: y as usize };
        if !contains_point(used, &p) {
            return Result::Ok(p);
        }
        proof {
            assert(p.x < width && p.y < height && used@.contains(p));
        }
        attempt = attempt + 1;
    }
    Result::Err(ExhaustedError)
}

/// Every circle's center is bounded and its radius, inflated by
/// `clearance`, stays within what the containment test accepts.
pub open spec fn circles_ok(circles: Seq<Circle>, clearance: int) -> bool {
    forall|k: int|
        0 <= k < circles.len() ==> #[trigger] bounded(circles[k].center)
            && circles[k].radius + clearance <= RADIUS_LIMIT
}

/// The fixed-point plane position of a whole-pixel point.
pub open spec fn pixel_point(x: int, y: int) -> Point {
    Point { x: (x * 1024) as i64, y: (y * 1024) as i64 }
}

/// Whether some circle of the list, inflated by `clearance`, holds `p`.
pub open spec fn circle_covered(circles: Seq<Circle>, clearance: int, p: Point) -> bool {
    exists|k: int|
        0 <= k < circles.len() && #[trigger] within(
            p,
            circles[k].center,
            circles[k].radius + clearance,
        )
}

/// Whether `p` falls inside any of `circles`, each inflated by
/// `clearance` pixels.
pub fn inside_any_circle(p: &Point, circles: &Vec<Circle>, clearance: u32) -> (r: bool)
    requires
        bounded(*p),
        circles_ok(circles@, clearance as int),
    ensures
        r == exists|k: int|
            0 <= k < circles@.len() && #[trigger] within(
                *p,
                circles@[k].center,
                circles@[k].radius + clearance,
            ),
{
    let mut k: usize = 0;
    while k < circles.len()
        invariant
            bounded(*p),
            circles_ok(circles@, clearance as int),
            k <= circles@.len(),
            forall|j: int|
                0 <= j < k ==> !#[trigger] within(
                    *p,
                    circles@[j].center,
                    circles@[j].radius + clearance,
                ),
        decreases circles@.len() - k,
    {
        let c: Circle = circles[k];
        if crate::geometry::in_circle(p, &c, clearance) {
            return true;
        }
        k = k + 1;
    }
    false
}

/// Draws a whole-pixel point inside `width` by `height` that clears every
/// placed circle by `clearance` pixels; after the retry budget is spent
/// on covered points, fails with [`ExhaustedError`]. When the circles
/// cover the whole canvas, failure is certain; when they cover none of
/// it, success is.
pub fn random_center(
    rng: &mut RandomSource,
    width: u32,
    height: u32,
    clearance: u32,
    circles: &Vec<Circle>,
) -> (r: Result<Point, ExhaustedError>)
    requires
        1 <= width <= 4096,
        1 <= height <= 4096,
        circles_ok(circles@, clearance as int),
    ensures
        match r {
            Result::Ok(p) => {
                &&& bounded(p)
                &&& 0 <= p.x < width * 1024
                &&& 0 <= p.y < height * 1024
                &&& exists|x: int, y: int|
                    0 <= x < width && 0 <= y < height && p == #[trigger] pixel_point(x, y)
                &&& forall|k: int|
                    0 <= k < circles@.len() ==> !#[trigger] within(
                        p,
                        circles@[k].center,
                        circles@[k].radius + clearance,
                    )
            },
            Result::Err(e) => true,
        },
        (forall|x: int, y: int|
            0 <= x < width && 0 <= y < height ==> circle_covered(
                circles@,
                clearance as int,
                #[trigger] pixel_point(x, y),
            )) ==> r is Err,
        (forall|x: int, y: int|
            0 <= x < width && 0 <= y < height ==> !circle_covered(
                circles@,
                clearance as int,
                #[trigger] pixel_point(x, y),
            )) ==> r is Ok,
{
    let mut attempt: usize = 0;
    while attempt < ATTEMPT_CEILING
        invariant
            1 <= width <= 4096,
            1 <= height <= 4096,
            circles_ok(circles@, clearance as int),
            attempt > 0 ==> exists|x: int, y: int|
                0 <= x < width && 0 <= y < height && circle_covered(
                    circles@,
                    clearance as int,
                    #[trigger] pixel_point(x, y),
                ),
        decreases ATTEMPT_CEILING - attempt,
    {
        let x: u32 = rng.below(width);
        let y: u32 = rng.below(height);
        let p: Point = Point::from_pixels(x as usize, y as usize);
        if !inside_any_circle(&p, circles, clearance) {
            proof {
                assert(pixel_point(x as int, y as int) == p);
                assert(!circle_covered(circles@, clearance as int, pixel_point(x as int, y as int)));
            }
            return Result::Ok(p);
        }
        proof {
            assert(pixel_point(x as int, y as int) == p);
            assert(circle_covered(circles@, clearance as int, pixel_point(x as int, y as int)));
        }
        attempt = attempt + 1;
    }
    Result::Err(ExhaustedError)
}

} // verus!
