//! Fixed-point arithmetic of the noise kernel.
//!
//! Fractions in `[0, 1]` are held as integers in `[0, ONE]`.
use vstd::arithmetic::div_mod::{lemma_div_by_multiple, lemma_div_is_ordered};
use vstd::prelude::*;

verus! {

/// The fixed-point unit: the integer that stands for the fraction 1.
pub const ONE: i64 = 65536;

/// The ease curve `3w^2 - 2w^3` on a fixed-point weight `w`, rounded down.
pub open spec fn smooth(w: int) -> int {
    w * w * (3 * ONE - 2 * w) / (ONE * ONE)
}

/// Moves from `a0` towards `a1` by the fixed-point fraction `s`, rounding towards `a0`.
pub open spec fn lerp(a0: int, a1: int, s: int) -> int {
    if a0 <= a1 {
        a0 + (a1 - a0) * s / (ONE as int)
    } else {
        a0 - (a0 - a1) * s / (ONE as int)
    }
}

/// Smoothstep interpolation between `a0` and `a1` at the fixed-point weight `w`.
pub open spec fn interp(a0: int, a1: int, w: int) -> int {
    lerp(a0, a1, smooth(w))
}

proof fn lemma_cubic_monotonic(w1: int, w2: int)
    requires
        0 <= w1 <= w2 <= ONE,
    ensures
        0 <= w1 * w1 * (3 * ONE - 2 * w1) <= w2 * w2 * (3 * ONE - 2 * w2),
{
    let k = 3 * ONE as int;
    assert(w2 * w2 <= ONE * w2) by (nonlinear_arith)
        requires
            0 <= w2 <= ONE,
    ;
    assert(w1 * w2 <= ONE * w1) by (nonlinear_arith)
        requires
            0 <= w1,
            w2 <= ONE,
    ;
    assert(w1 * w1 <= ONE * w1) by (nonlinear_arith)
        requires
            0 <= w1 <= ONE,
    ;
    let inner = k * (w2 + w1) - 2 * (w2 * w2 + w1 * w2 + w1 * w1);
    assert(inner >= 0) by (nonlinear_arith)
        requires
            inner == k * (w2 + w1) - 2 * (w2 * w2 + w1 * w2 + w1 * w1),
            k == 3 * ONE,
            w2 * w2 <= ONE * w2,
            w1 * w2 <= ONE * w1,
            w1 * w1 <= ONE * w1,
            0 <= w1,
    ;
    assert(w2 * w2 * (k - 2 * w2) - w1 * w1 * (k - 2 * w1) == (w2 - w1) * (k * (w2 + w1) - 2 * (
    w2 * w2 + w1 * w2 + w1 * w1))) by (nonlinear_arith);
    assert((w2 - w1) * inner >= 0) by (nonlinear_arith)
        requires
            w2 - w1 >= 0,
            inner >= 0,
    ;
    assert(w1 * w1 * (k - 2 * w1) >= 0) by (nonlinear_arith)
        requires
            0 <= w1 <= ONE,
            k == 3 * ONE,
    ;
}

/// The ease curve is nondecreasing on `[0, ONE]` and stays within it.
pub proof fn lemma_smooth_monotonic(w1: int, w2: int)
    requires
        0 <= w1 <= w2 <= ONE,
    ensures
        0 <= smooth(w1) <= smooth(w2) <= ONE,
{
    lemma_cubic_monotonic(w1, w2);
    lemma_cubic_monotonic(w2, ONE as int);
    let d = (ONE * ONE) as int;
    lemma_div_is_ordered(w1 * w1 * (3 * ONE - 2 * w1), w2 * w2 * (3 * ONE - 2 * w2), d);
    lemma_div_is_ordered(w2 * w2 * (3 * ONE - 2 * w2), ONE * ONE * (3 * ONE - 2 * ONE), d);
    lemma_div_is_ordered(0, w1 * w1 * (3 * ONE - 2 * w1), d);
    assert(ONE * ONE * (3 * ONE - 2 * ONE) / d == ONE);
}

proof fn lemma_scaled_step(d: int, s1: int, s2: int)
    requires
        d >= 0,
        0 <= s1 <= s2 <= ONE,
    ensures
        0 <= d * s1 / (ONE as int) <= d * s2 / (ONE as int) <= d,
{
    assert(0 <= d * s1 <= d * s2 <= d * ONE) by (nonlinear_arith)
        requires
            d >= 0,
            0 <= s1 <= s2 <= ONE,
    ;
    lemma_div_is_ordered(0, d * s1, ONE as int);
    lemma_div_is_ordered(d * s1, d * s2, ONE as int);
    lemma_div_is_ordered(d * s2, d * ONE, ONE as int);
    lemma_div_by_multiple(d, ONE as int);
}

/// Stepping from `a0` towards `a1` stays between the two, and a larger step goes no
/// less far.
pub proof fn lemma_lerp_between(a0: int, a1: int, s1: int, s2: int)
    requires
        0 <= s1 <= s2 <= ONE,
    ensures
        a0 <= a1 ==> a0 <= lerp(a0, a1, s1) <= lerp(a0, a1, s2) <= a1,
        a1 <= a0 ==> a1 <= lerp(a0, a1, s2) <= lerp(a0, a1, s1) <= a0,
        lerp(a0, a1, 0) == a0,
        lerp(a0, a1, ONE as int) == a1,
{
    if a0 <= a1 {
        lemma_scaled_step(a1 - a0, s1, s2);
        lemma_scaled_step(a1 - a0, 0, ONE as int);
        lemma_div_by_multiple(a1 - a0, ONE as int);
    } else {
        lemma_scaled_step(a0 - a1, s1, s2);
        lemma_div_by_multiple(a0 - a1, ONE as int);
    }
    assert(lerp(a0, a1, 0) == a0);
}

/// The interpolation kernel returns `a0` at weight 0 and `a1` at weight `ONE`; between
/// them it stays within `[a0, a1]` and moves monotonically from `a0` to `a1`.
pub proof fn lemma_interp_kernel(a0: int, a1: int, w1: int, w2: int)
    requires
        0 <= w1 <= w2 <= ONE,
    ensures
        interp(a0, a1, 0) == a0,
        interp(a0, a1, ONE as int) == a1,
        a0 <= a1 ==> a0 <= interp(a0, a1, w1) <= interp(a0, a1, w2) <= a1,
        a1 <= a0 ==> a1 <= interp(a0, a1, w2) <= interp(a0, a1, w1) <= a0,
{
    assert(smooth(0) == 0) by {
        lemma_div_by_multiple(0, ONE * ONE);
    }
    assert(smooth(ONE as int) == ONE) by {
        assert(ONE * ONE * (3 * ONE - 2 * ONE) / (ONE * ONE) == ONE);
    }
    lemma_smooth_monotonic(w1, w2);
    lemma_lerp_between(a0, a1, 0, ONE as int);
    lemma_lerp_between(a0, a1, smooth(w1), smooth(w2));
}

/// The ease curve at a fixed-point weight.
pub fn smoothstep(w: i64) -> (r: i64)
    requires
        0 <= w <= ONE,
    ensures
        r == smooth(w as int),
        0 <= r <= ONE,
{
    proof {
        lemma_smooth_monotonic(w as int, w as int);
        assert(w * w <= ONE * ONE) by (nonlinear_arith)
            requires
                0 <= w <= ONE,
        ;
        assert(w * w * (3 * ONE - 2 * w) <= ONE * ONE * (3 * ONE)) by (nonlinear_arith)
            requires
                0 <= w <= ONE,
                w * w <= ONE * ONE,
        ;
        assert(w * w * (3 * ONE - 2 * w) >= 0) by (nonlinear_arith)
            requires
                0 <= w <= ONE,
        ;
    }
    w * w * (3 * ONE - 2 * w) / (ONE * ONE)
}

/// Bound on the magnitude of the values that `interpolate` accepts.
pub const VALUE_BOUND: i64 = 0x100_0000_0000;

/// Smoothstep interpolation between `a0` and `a1` at the fixed-point weight `w`.
pub fn interpolate(a0: i64, a1: i64, w: i64) -> (r: i64)
    requires
        -VALUE_BOUND <= a0 <= VALUE_BOUND,
        -VALUE_BOUND <= a1 <= VALUE_BOUND,
        0 <= w <= ONE,
    ensures
        r == interp(a0 as int, a1 as int, w as int),
        a0 <= a1 ==> a0 <= r <= a1,
        a1 <= a0 ==> a1 <= r <= a0,
{
    let s = smoothstep(w);
    proof {
        lemma_lerp_between(a0 as int, a1 as int, s as int, s as int);
    }
    if a0 <= a1 {
        let d = a1 - a0;
        proof {
            assert(d * s <= d * ONE) by (nonlinear_arith)
                requires
                    0 <= d,
                    0 <= s <= ONE,
            ;
            assert(d * s >= 0) by (nonlinear_arith)
                requires
                    0 <= d,
                    0 <= s,
            ;
        }
        a0 + d * s / ONE
    } else {
        let d = a0 - a1;
        proof {
            assert(d * s <= d * ONE) by (nonlinear_arith)
                requires
                    0 <= d,
                    0 <= s <= ONE,
            ;
            assert(d * s >= 0) by (nonlinear_arith)
                requires
                    0 <= d,
                    0 <= s,
            ;
        }
        a0 - d * s / ONE
    }
}

} // verus!
