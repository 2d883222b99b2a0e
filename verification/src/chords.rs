//! The strings mode: evenly spaced points on a circle and on a bounding
//! square, joined by two offset chord sets.
//!
//! The circle carries one point per split, walked by angle; the square
//! carries a quarter of them per side. The first chord set pairs the
//! points in order; the second walks both rings backwards and skips the
//! circle ahead by the aperture, which twists the weave.

use vstd::prelude::*;
use crate::fixed::{spec_tdiv, tdiv};
use crate::geometry::Point;
use crate::trig;
use crate::config::{StringsModeProps, convert_splits, strings_radius};

verus! {

/// Largest coordinate magnitude (in fixed-point units) the chord layout
/// accepts for its centers and corners.
pub const CHORD_COORD_LIMIT: i64 = 0x8_0000_0000;

/// Point `i` of `splits` on the circle: the center moved against the
/// angle's direction by the radius.
pub open spec fn spec_circle_point(center: Point, radius: u32, splits: u32, i: int) -> Point {
    let a = 65536 * i / (splits as int);
    Point {
        x: (center.x - spec_tdiv(radius * trig::spec_cos(a), 4)) as i64,
        y: (center.y - spec_tdiv(radius * trig::spec_sin(a), 4)) as i64,
    }
}

/// Point `k` of the square ring: a quarter of the points per side,
/// walked around the square's edge from its corner.
pub open spec fn spec_square_point(
    corner: Point,
    w: i64,
    h: i64,
    splits: u32,
    k: int,
) -> Point {
    let q = splits as int / 4;
    if k < q {
        Point { x: (corner.x + spec_tdiv(4 * k * w, splits as int)) as i64, y: corner.y }
    } else if k < 2 * q {
        Point {
            x: (corner.x + w) as i64,
            y: (corner.y + spec_tdiv(4 * (k - q) * h, splits as int)) as i64,
        }
    } else if k < 3 * q {
        Point {
            x: (corner.x + spec_tdiv(4 * (3 * q - k) * w, splits as int)) as i64,
            y: (corner.y + h) as i64,
        }
    } else {
        Point { x: corner.x, y: (corner.y + spec_tdiv(4 * (4 * q - k) * h, splits as int)) as i64 }
    }
}

/// The circle ring: one point per split, in angle order.
pub fn make_circle_points(splits: u32, center: Point, radius: u32) -> (r: Vec<Point>)
    requires
        1 <= splits <= 4096,
        radius <= 4096,
        -CHORD_COORD_LIMIT <= center.x <= CHORD_COORD_LIMIT,
        -CHORD_COORD_LIMIT <= center.y <= CHORD_COORD_LIMIT,
    ensures
        r@.len() == splits,
        forall|i: int|
            0 <= i < splits ==> #[trigger] r@[i] == spec_circle_point(center, radius, splits, i),
{
    let mut r: Vec<Point> = Vec::new();
    let mut i: u32 = 0;
    while i < splits
        invariant
            1 <= splits <= 4096,
            radius <= 4096,
            -CHORD_COORD_LIMIT <= center.x <= CHORD_COORD_LIMIT,
            -CHORD_COORD_LIMIT <= center.y <= CHORD_COORD_LIMIT,
            i <= splits,
            r@.len() == i,
            forall|j: int|
                0 <= j < i ==> #[trigger] r@[j] == spec_circle_point(center, radius, splits, j),
        decreases splits - i,
    {
        proof {
            assert(65536 * (i as int) < 65536 * (splits as int));
            vstd::arithmetic::div_mod::lemma_div_pos_is_pos(
                65536 * (i as int),
                splits as int,
            );
            vstd::arithmetic::div_mod::lemma_multiply_divide_lt(
                65536 * (i as int),
                splits as int,
                65536,
            );
        }
        let a: u64 = 65536 * (i as u64) / (splits as u64);
        let cos_a: i64 = trig::cos(a);
        let sin_a: i64 = trig::sin(a);
        proof {
            assert(
                -16777216 <= (radius as i128) * (cos_a as i128) <= 16777216int
                    && -16777216 <= (radius as i128) * (sin_a as i128) <= 16777216int
            ) by (nonlinear_arith)
                requires
                    0 <= radius as i128 <= 4096,
                    -4096 <= cos_a as i128 <= 4096,
                    -4096 <= sin_a as i128 <= 4096,
            ;
        }
        let dx: i128 = tdiv((radius as i128) * (cos_a as i128), 4);
        let dy: i128 = tdiv((radius as i128) * (sin_a as i128), 4);
        r.push(Point { x: center.x - (dx as i64), y: center.y - (dy as i64) });
        i = i + 1;
    }
    r
}

/// The numerator of a side offset stays small.
proof fn lemma_side_offset_bound(f: int, side: int)
    requires
        0 <= f <= 4096,
        0 <= side <= 0x80_0000,
    ensures
        0 <= 4 * f * side <= 0x20_0000_0000,
{
    assert(0 <= 4 * f * side <= 137438953472int) by (nonlinear_arith)
        requires
            0 <= f <= 4096,
            0 <= side <= 8388608,
    ;
}

/// The square ring: a quarter of the points per side.
pub fn make_square_points(splits: u32, corner: Point, w: i64, h: i64) -> (r: Vec<Point>)
    requires
        4 <= splits <= 4096,
        0 <= w <= 0x80_0000,
        0 <= h <= 0x80_0000,
        -CHORD_COORD_LIMIT <= corner.x <= CHORD_COORD_LIMIT,
        -CHORD_COORD_LIMIT <= corner.y <= CHORD_COORD_LIMIT,
    ensures
        r@.len() == 4 * (splits as int / 4),
        forall|k: int|
            0 <= k < r@.len() ==> #[trigger] r@[k] == spec_square_point(corner, w, h, splits, k),
{
    let quarter: u32 = splits / 4;
    let mut r: Vec<Point> = Vec::new();
    let mut k: u32 = 0;
    while k < 4 * quarter
        invariant
            4 <= splits <= 4096,
            0 <= w <= 0x80_0000,
            0 <= h <= 0x80_0000,
            -CHORD_COORD_LIMIT <= corner.x <= CHORD_COORD_LIMIT,
            -CHORD_COORD_LIMIT <= corner.y <= CHORD_COORD_LIMIT,
            quarter == splits as int / 4,
            k <= 4 * quarter,
            r@.len() == k,
            forall|j: int|
                0 <= j < k ==> #[trigger] r@[j] == spec_square_point(corner, w, h, splits, j),
        decreases 4 * quarter - k,
    {
        let p: Point = if k < quarter {
            let f: i128 = k as i128;
            proof {
                lemma_side_offset_bound(f as int, w as int);
            }
            let off: i128 = tdiv(4 * f * (w as i128), splits as i128);
            Point { x: corner.x + (off as i64), y: corner.y }
        } else if k < 2 * quarter {
            let f: i128 = (k - quarter) as i128;
            proof {
                lemma_side_offset_bound(f as int, h as int);
            }
            let off: i128 = tdiv(4 * f * (h as i128), splits as i128);
            Point { x: corner.x + w, y: corner.y + (off as i64) }
        } else if k < 3 * quarter {
            let f: i128 = (3 * quarter - k) as i128;
            proof {
                lemma_side_offset_bound(f as int, w as int);
            }
            let off: i128 = tdiv(4 * f * (w as i128), splits as i128);
            Point { x: corner.x + (off as i64), y: corner.y + h }
        } else {
            let f: i128 = (4 * quarter - k) as i128;
            proof {
                lemma_side_offset_bound(f as int, h as int);
            }
            let off: i128 = tdiv(4 * f * (h as i128), splits as i128);
            Point { x: corner.x, y: corner.y + (off as i64) }
        };
        r.push(p);
        k = k + 1;
    }
    r
}

/// The two chord sets over a circle ring and a square ring of equal
/// length: the first pairs the rings in order, the second walks both
/// backwards with the circle skipped ahead by the aperture. Both are
/// flattened into alternating circle and square points.
pub fn chord_paths(
    circle_pts: &Vec<Point>,
    square_pts: &Vec<Point>,
    aperture: usize,
) -> (r: (Vec<Point>, Vec<Point>))
    requires
        circle_pts@.len() == square_pts@.len(),
        1 <= circle_pts@.len() <= 4096,
        aperture < circle_pts@.len(),
    ensures
        r.0@.len() == 2 * circle_pts@.len(),
        r.1@.len() == 2 * circle_pts@.len(),
        forall|m: int|
            0 <= m < r.0@.len() ==> #[trigger] r.0@[m] == (if m % 2 == 0 {
                circle_pts@[m / 2]
            } else {
                square_pts@[(m - 1) / 2]
            }),
        forall|m: int|
            0 <= m < r.1@.len() ==> #[trigger] r.1@[m] == (if m % 2 == 0 {
                circle_pts@[circle_pts@.len() - 1 - ((m / 2 + aperture) % (circle_pts@.len() as int))]
            } else {
                square_pts@[square_pts@.len() - 1 - (m - 1) / 2]
            }),
{
    let n: usize = circle_pts.len();
    let mut first: Vec<Point> = Vec::new();
    let mut k: usize = 0;
    while k < n
        invariant
            circle_pts@.len() == n,
            square_pts@.len() == n,
            1 <= n <= 4096,
            k <= n,
            first@.len() == 2 * k,
            forall|m: int|
                0 <= m < first@.len() ==> #[trigger] first@[m] == (if m % 2 == 0 {
                    circle_pts@[m / 2]
                } else {
                    square_pts@[(m - 1) / 2]
                }),
        decreases n - k,
    {
        first.push(circle_pts[k]);
        first.push(square_pts[k]);
        k = k + 1;
    }
    let mut second: Vec<Point> = Vec::new();
    let mut k2: usize = 0;
    while k2 < n
        invariant
            circle_pts@.len() == n,
            square_pts@.len() == n,
            1 <= n <= 4096,
            aperture < n,
            k2 <= n,
            second@.len() == 2 * k2,
            forall|m: int|
                0 <= m < second@.len() ==> #[trigger] second@[m] == (if m % 2 == 0 {
                    circle_pts@[n - 1 - ((m / 2 + aperture) % n as int)]
                } else {
                    square_pts@[n - 1 - (m - 1) / 2]
                }),
        decreases n - k2,
    {
        let ci: usize = n - 1 - ((k2 + aperture) % n);
        second.push(circle_pts[ci]);
        second.push(square_pts[n - 1 - k2]);
        k2 = k2 + 1;
    }
    (first, second)
}

/// The whole strings layout for a square canvas of `side` pixels: the
/// circle ring around the canvas center, the square ring one twentieth
/// in from the border and nine tenths wide, and the two chord sets.
pub fn strings_scene(side: u32, props: &StringsModeProps) -> (r: (
    Vec<Point>,
    Vec<Point>,
    Vec<Point>,
    Vec<Point>,
))
    requires
        1 <= side <= 4096,
        props.aperture < crate::config::spec_convert_splits(props.splits),
    ensures
        r.0@.len() == crate::config::spec_convert_splits(props.splits),
        r.1@.len() == r.0@.len(),
        r.2@.len() == 2 * r.0@.len(),
        r.3@.len() == 2 * r.0@.len(),
        forall|m: int|
            0 <= m < r.2@.len() ==> #[trigger] r.2@[m] == (if m % 2 == 0 {
                r.0@[m / 2]
            } else {
                r.1@[(m - 1) / 2]
            }),
        forall|m: int|
            0 <= m < r.3@.len() ==> #[trigger] r.3@[m] == (if m % 2 == 0 {
                r.0@[r.0@.len() - 1 - ((m / 2 + props.aperture) % r.0@.len() as int)]
            } else {
                r.1@[r.1@.len() - 1 - (m - 1) / 2]
            }),
{
    let splits: u32 = convert_splits(props.splits);
    let radius: u32 = strings_radius(props.radius);
    let center = Point { x: (side as i64) * 512, y: (side as i64) * 512 };
    let corner_off: i128 = tdiv((side as i128) * 1024, 20);
    let corner = Point { x: corner_off as i64, y: corner_off as i64 };
    let span: i128 = tdiv((side as i128) * 1024 * 9, 10);
    proof {
        crate::fixed::lemma_tdiv_le((side as i128) * 1024 * 9 as int, 10, 3774874);
    }
    let circle_pts: Vec<Point> = make_circle_points(splits, center, radius);
    let square_pts: Vec<Point> = make_square_points(splits, corner, span as i64, span as i64);
    proof {
        assert(4 * (splits as int / 4) == splits);
    }
    let (chords_a, chords_b): (Vec<Point>, Vec<Point>) = chord_paths(
        &circle_pts,
        &square_pts,
        props.aperture,
    );
    (circle_pts, square_pts, chords_a, chords_b)
}

} // verus!
