//! Fixed-point trigonometry over angles measured in fractions of a turn.
//!
//! An angle is an integer in `[0, TURN)`, where `TURN` stands for a full
//! revolution (two pi radians). Sine and cosine are the classic rational
//! approximation attributed to Bhaskara, scaled so that the unit amplitude
//! is [`SCALE`]; it is exact at multiples of a quarter turn. The arc
//! tangent is a quadratic approximation per octant, exact on the axes and
//! the diagonals. Every function carries its range in its contract, which
//! is what the flow field needs to stay inside `[0, TURN)`.

use vstd::prelude::*;
use vstd::arithmetic::div_mod::{lemma_div_is_ordered, lemma_div_by_multiple, lemma_div_pos_is_pos};

verus! {

/// One full revolution in angle units.
pub const TURN: u64 = 65536;

/// Half a revolution in angle units.
pub const HALF_TURN: u64 = 32768;

/// A quarter revolution in angle units.
pub const QUARTER_TURN: u64 = 16384;

/// An eighth of a revolution in angle units.
pub const EIGHTH_TURN: u64 = 8192;

/// Unit amplitude of the sine and cosine values.
pub const SCALE: i64 = 4096;

/// Sine on the first half turn, as a rational function of the angle:
/// with `u = t * (HALF_TURN - t)`, the value is
/// `65536 * u / (5 * HALF_TURN^2 - 4 * u)`, which runs from `0` at the
/// ends of the half turn up to exactly [`SCALE`] at the quarter turn.
pub open spec fn spec_sin_half(t: int) -> int {
    (65536 * (t * (32768 - t))) / (5368709120 - 4 * (t * (32768 - t)))
}

/// Sine of an angle in `[0, TURN)`, scaled by [`SCALE`]: nonnegative on
/// the first half turn, mirrored negative on the second.
pub open spec fn spec_sin(a: int) -> int {
    if a < 32768 {
        spec_sin_half(a)
    } else {
        -spec_sin_half(a - 32768)
    }
}

/// Cosine is the sine advanced by a quarter turn.
pub open spec fn spec_cos(a: int) -> int {
    spec_sin((a + 16384) % 65536)
}

/// The half-turn sine approximation stays within `[0, SCALE]`.
pub proof fn lemma_sin_half_range(t: int)
    requires
        0 <= t <= 32768,
    ensures
        0 <= spec_sin_half(t) <= SCALE,
{
    let u = t * (32768 - t);
    assert(0 <= 4 * u <= 1073741824 && 65536 * u <= 4096 * (5368709120 - 4 * u))
        by (nonlinear_arith)
        requires
            0 <= t <= 32768,
            u == t * (32768 - t),
    ;
    lemma_div_pos_is_pos(65536 * u, 5368709120 - 4 * u);
    lemma_div_is_ordered(65536 * u, 4096 * (5368709120 - 4 * u), 5368709120 - 4 * u);
    lemma_div_by_multiple(4096, 5368709120 - 4 * u);
}

/// The sine of any angle in `[0, TURN)` lies in `[-SCALE, SCALE]`.
pub proof fn lemma_sin_range(a: int)
    requires
        0 <= a < TURN,
    ensures
        -SCALE <= spec_sin(a) <= SCALE,
{
    if a < 32768 {
        lemma_sin_half_range(a);
    } else {
        lemma_sin_half_range(a - 32768);
    }
}

/// Sine of an angle in `[0, TURN)`, scaled by [`SCALE`].
pub fn sin(angle: u64) -> (r: i64)
    requires
        angle < TURN,
    ensures
        r == spec_sin(angle as int),
        -SCALE <= r <= SCALE,
{
    proof {
        lemma_sin_range(angle as int);
    }
    if angle < HALF_TURN {
        sin_half(angle)
    } else {
        -sin_half(angle - HALF_TURN)
    }
}

/// Cosine of an angle in `[0, TURN)`, scaled by [`SCALE`].
pub fn cos(angle: u64) -> (r: i64)
    requires
        angle < TURN,
    ensures
        r == spec_cos(angle as int),
        -SCALE <= r <= SCALE,
{
    let shifted: u64 = (angle + QUARTER_TURN) % TURN;
    proof {
        lemma_sin_range(shifted as int);
    }
    sin(shifted)
}

/// Largest coordinate magnitude accepted by [`atan2`].
pub const ATAN_LIMIT: i64 = 0x2000_0000_0000;

/// Arc tangent of a ratio `z / SCALE` in `[0, 1]`, in angle units: a
/// quadratic approximation `EIGHTH_TURN * z / SCALE` plus the correction
/// `2847 * z * (SCALE - z) / SCALE^2`, exact at both ends of the octant.
pub open spec fn spec_atan_frac(z: int) -> int {
    (8192 * z * 4096 + 2847 * z * (4096 - z)) / 16777216
}

/// The octant arc tangent stays within `[0, EIGHTH_TURN]`.
pub proof fn lemma_atan_frac_range(z: int)
    requires
        0 <= z <= 4096,
    ensures
        0 <= spec_atan_frac(z) <= EIGHTH_TURN,
{
    let num = 8192 * z * 4096 + 2847 * z * (4096 - z);
    assert(0 <= num <= 8192 * 16777216) by (nonlinear_arith)
        requires
            0 <= z <= 4096,
            num == 8192 * z * 4096 + 2847 * z * (4096 - z),
    ;
    lemma_div_pos_is_pos(num, 16777216);
    lemma_div_is_ordered(num, 8192int * 16777216, 16777216);
    lemma_div_by_multiple(8192, 16777216);
}

/// Arc tangent of `y / x` as an angle in `[0, TURN)`, by octants: the
/// smaller magnitude over the larger gives the in-octant ratio, and the
/// signs of `x` and `y` pick the octant. The origin maps to zero.
pub open spec fn spec_atan2(y: int, x: int) -> int {
    let ax = vstd::math::abs(x) as int;
    let ay = vstd::math::abs(y) as int;
    if x == 0 && y == 0 {
        0
    } else if ay <= ax {
        let base = spec_atan_frac(4096 * ay / ax);
        if x > 0 && y >= 0 {
            base
        } else if x < 0 && y >= 0 {
            32768 - base
        } else if x < 0 {
            32768 + base
        } else if base == 0 {
            0
        } else {
            65536 - base
        }
    } else {
        let base = spec_atan_frac(4096 * ax / ay);
        if y > 0 && x >= 0 {
            16384 - base
        } else if y > 0 {
            16384 + base
        } else if x < 0 {
            49152 - base
        } else {
            49152 + base
        }
    }
}

/// The in-octant ratio fed to [`spec_atan_frac`] stays within `[0, SCALE]`.
proof fn lemma_ratio_range(small: int, large: int)
    requires
        0 <= small <= large,
        1 <= large,
    ensures
        0 <= 4096 * small / large <= 4096,
{
    lemma_div_pos_is_pos(4096 * small, large);
    lemma_div_is_ordered(4096 * small, 4096 * large, large);
    lemma_div_by_multiple(4096, large);
}

/// The octant arc tangent keeps every angle inside `[0, TURN)`.
pub proof fn lemma_atan2_range(y: int, x: int)
    ensures
        0 <= spec_atan2(y, x) < TURN,
{
    let ax = vstd::math::abs(x) as int;
    let ay = vstd::math::abs(y) as int;
    if x == 0 && y == 0 {
    } else if ay <= ax {
        lemma_ratio_range(ay, ax);
        lemma_atan_frac_range(4096 * ay / ax);
    } else {
        lemma_ratio_range(ax, ay);
        lemma_atan_frac_range(4096 * ax / ay);
    }
}

/// Arc tangent of `y / x` as an angle in `[0, TURN)`.
pub fn atan2(y: i64, x: i64) -> (r: u64)
    requires
        -ATAN_LIMIT <= y <= ATAN_LIMIT,
        -ATAN_LIMIT <= x <= ATAN_LIMIT,
    ensures
        r == spec_atan2(y as int, x as int),
        r < TURN,
{
    proof {
        lemma_atan2_range(y as int, x as int);
    }
    let ax: u64 = (if x < 0 { -x } else { x }) as u64;
    let ay: u64 = (if y < 0 { -y } else { y }) as u64;
    if x == 0 && y == 0 {
        0
    } else if ay <= ax {
        proof {
            lemma_ratio_range(ay as int, ax as int);
        }
        let base: u64 = atan_frac(4096 * ay / ax);
        if x > 0 && y >= 0 {
            base
        } else if x < 0 && y >= 0 {
            HALF_TURN - base
        } else if x < 0 {
            HALF_TURN + base
        } else if base == 0 {
            0
        } else {
            TURN - base
        }
    } else {
        proof {
            lemma_ratio_range(ax as int, ay as int);
        }
        let base: u64 = atan_frac(4096 * ax / ay);
        if y > 0 && x >= 0 {
            QUARTER_TURN - base
        } else if y > 0 {
            QUARTER_TURN + base
        } else if x < 0 {
            49152 - base
        } else {
            49152 + base
        }
    }
}

/// The in-octant branch of the arc tangent.
fn atan_frac(z: u64) -> (r: u64)
    requires
        z <= 4096,
    ensures
        r == spec_atan_frac(z as int),
        r <= EIGHTH_TURN,
{
    proof {
        lemma_atan_frac_range(z as int);
        assert(8192 * (z as int) * 4096 + 2847 * (z as int) * (4096 - z as int)
            <= 8192 * 16777216) by (nonlinear_arith)
            requires
                0 <= z as int <= 4096,
        ;
    }
    let num: u64 = 8192 * z * 4096 + 2847 * z * (4096 - z);
    num / 16777216
}

/// The positive half-turn branch of the sine.
fn sin_half(t: u64) -> (r: i64)
    requires
        t <= HALF_TURN,
    ensures
        r == spec_sin_half(t as int),
        0 <= r <= SCALE,
{
    proof {
        assert(0 <= (t as int) * (32768 - t as int) <= 268435456int) by (nonlinear_arith)
            requires
                0 <= t as int <= 32768,
        ;
        lemma_sin_half_range(t as int);
    }
    let u: u64 = t * (HALF_TURN - t);
    let num: u64 = 65536 * u;
    let den: u64 = 5368709120 - 4 * u;
    (num / den) as i64
}

} // verus!
