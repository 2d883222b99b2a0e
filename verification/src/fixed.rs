//! Exact integer division and clamping, shared by the fixed-point
//! arithmetic of the flow field.
//!
//! The flow field divides quantities of either sign, so the division used
//! throughout is defined here once: truncation toward zero, with a zero
//! divisor mapping to zero, which keeps every spec total.

use vstd::prelude::*;
use vstd::arithmetic::div_mod::{
    lemma_div_is_ordered,
    lemma_div_by_multiple,
    lemma_div_pos_is_pos,
    lemma_div_nonincreasing,
};

verus! {

/// Division truncated toward zero; zero when the divisor is zero.
pub open spec fn spec_tdiv(a: int, b: int) -> int {
    if b == 0 {
        0
    } else if (a < 0) == (b < 0) {
        (vstd::math::abs(a) / vstd::math::abs(b)) as int
    } else {
        -((vstd::math::abs(a) / vstd::math::abs(b)) as int)
    }
}

/// `v` pulled into `[lo, hi]`.
pub open spec fn spec_clamp(v: int, lo: int, hi: int) -> int {
    if v < lo {
        lo
    } else if v > hi {
        hi
    } else {
        v
    }
}

/// The quotient's magnitude is at most any `k` with `abs(a) <= k * abs(b)`.
pub proof fn lemma_tdiv_le(a: int, b: int, k: int)
    requires
        0 <= k,
        vstd::math::abs(a) <= k * vstd::math::abs(b),
        b != 0,
    ensures
        -k <= spec_tdiv(a, b) <= k,
{
    let aa = vstd::math::abs(a) as int;
    let bb = vstd::math::abs(b) as int;
    lemma_div_pos_is_pos(aa, bb);
    lemma_div_is_ordered(aa, k * bb, bb);
    lemma_div_by_multiple(k, bb);
}

/// Division truncated toward zero; zero when the divisor is zero.
pub fn tdiv(a: i128, b: i128) -> (q: i128)
    requires
        -0x4000_0000_0000_0000_0000_0000_0000_0000 < a,
        -0x4000_0000_0000_0000_0000_0000_0000_0000 < b,
    ensures
        q == spec_tdiv(a as int, b as int),
        -vstd::math::abs(a as int) <= q <= vstd::math::abs(a as int),
{
    if b == 0 {
        return 0;
    }
    let au: u128 = (if a < 0 { -a } else { a }) as u128;
    let bu: u128 = (if b < 0 { -b } else { b }) as u128;
    let q0: u128 = au / bu;
    proof {
        lemma_div_pos_is_pos(au as int, bu as int);
        lemma_div_nonincreasing(au as int, bu as int);
        assert(au as int <= au as int * bu) by (nonlinear_arith)
            requires
                1 <= bu,
                0 <= au,
        ;
        lemma_div_is_ordered(au as int, au as int * bu, bu as int);
        lemma_div_by_multiple(au as int, bu as int);
    }
    if (a < 0) == (b < 0) {
        q0 as i128
    } else {
        -(q0 as i128)
    }
}

/// `v` pulled into `[lo, hi]`.
pub fn clamp(v: i128, lo: i128, hi: i128) -> (r: i128)
    requires
        lo <= hi,
    ensures
        r == spec_clamp(v as int, lo as int, hi as int),
{
    if v < lo {
        lo
    } else if v > hi {
        hi
    } else {
        v
    }
}

} // verus!
