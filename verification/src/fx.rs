//! Q20 fixed-point arithmetic: values are `u64` counts of `1 / ONE`.
//!
//! Every operation is total and saturates at `u64::MAX`, which plays the
//! role of an "infinite" sentinel: a division by zero yields `u64::MAX`
//! and later stages propagate it, so degenerate configurations run to
//! completion instead of failing.

use vstd::prelude::*;
use vstd::arithmetic::div_mod::lemma_div_is_ordered;
use vstd::arithmetic::mul::lemma_mul_inequality;

verus! {

/// The fixed-point scale: this many units stand for the real number one.
pub const ONE: u64 = 0x100000;

/// Saturating addition, as a mathematical function.
pub open spec fn sat_add_s(a: int, b: int) -> int {
    if a + b > u64::MAX { u64::MAX as int } else { a + b }
}

/// Saturating subtraction (clamped at zero), as a mathematical function.
pub open spec fn sat_sub_s(a: int, b: int) -> int {
    if a >= b { a - b } else { 0 }
}

/// Fixed-point product `a * b / ONE`, truncated, saturating at `u64::MAX`.
pub open spec fn fx_mul_s(a: int, b: int) -> int {
    if a * b / (ONE as int) > u64::MAX { u64::MAX as int } else { a * b / (ONE as int) }
}

/// Fixed-point quotient `a * ONE / b`, truncated; division by zero
/// saturates to `u64::MAX`, the infinite sentinel.
pub open spec fn fx_div_s(a: int, b: int) -> int {
    if b == 0 {
        u64::MAX as int
    } else if a * (ONE as int) / b > u64::MAX {
        u64::MAX as int
    } else {
        a * (ONE as int) / b
    }
}

/// Smaller of two integers.
pub open spec fn min_s(a: int, b: int) -> int {
    if a <= b { a } else { b }
}

/// Larger of two integers.
pub open spec fn max_s(a: int, b: int) -> int {
    if a >= b { a } else { b }
}

pub fn sat_add(a: u64, b: u64) -> (r: u64)
    ensures
        r == sat_add_s(a as int, b as int),
{
    if a > u64::MAX - b {
        u64::MAX
    } else {
        a + b
    }
}

pub fn sat_sub(a: u64, b: u64) -> (r: u64)
    ensures
        r == sat_sub_s(a as int, b as int),
{
    if a >= b {
        a - b
    } else {
        0
    }
}

pub fn fx_mul(a: u64, b: u64) -> (r: u64)
    ensures
        r == fx_mul_s(a as int, b as int),
{
    proof {
        assert((a as int) * (b as int) <= (u64::MAX as int) * (u64::MAX as int))
            by (nonlinear_arith)
            requires 0 <= a <= u64::MAX, 0 <= b <= u64::MAX;
    }
    let p: u128 = (a as u128 * b as u128) / (ONE as u128);
    if p > u64::MAX as u128 {
        u64::MAX
    } else {
        p as u64
    }
}

pub fn fx_div(a: u64, b: u64) -> (r: u64)
    ensures
        r == fx_div_s(a as int, b as int),
{
    if b == 0 {
        u64::MAX
    } else {
        proof {
            assert((a as int) * (ONE as int) <= (u64::MAX as int) * (u64::MAX as int))
                by (nonlinear_arith)
                requires 0 <= a <= u64::MAX;
        }
        let q: u128 = (a as u128 * ONE as u128) / (b as u128);
        if q > u64::MAX as u128 {
            u64::MAX
        } else {
            q as u64
        }
    }
}

/// Conversion of a plain count into Q20 fixed point, saturating.
pub open spec fn fx_from_int_s(n: int) -> int {
    if n * (ONE as int) > u64::MAX { u64::MAX as int } else { n * (ONE as int) }
}

pub fn fx_from_int(n: u64) -> (r: u64)
    ensures
        r == fx_from_int_s(n as int),
{
    proof {
        assert((n as int) * (ONE as int) <= (u64::MAX as int) * (u64::MAX as int))
            by (nonlinear_arith)
            requires 0 <= n <= u64::MAX;
    }
    let p: u128 = n as u128 * ONE as u128;
    if p > u64::MAX as u128 {
        u64::MAX
    } else {
        p as u64
    }
}

/// A Q20 amount per hour, from a Q20 amount and a Q20 time in seconds.
pub open spec fn per_hour_s(amount: int, time: int) -> int {
    if amount * 3600 * (ONE as int) / time > u64::MAX {
        u64::MAX as int
    } else {
        amount * 3600 * (ONE as int) / time
    }
}

pub fn per_hour(amount: u64, time: u64) -> (r: u64)
    requires
        time >= 1,
    ensures
        r == per_hour_s(amount as int, time as int),
{
    proof {
        assert((amount as int) * 3600 * (ONE as int)
            <= (u64::MAX as int) * 3600 * (ONE as int)) by (nonlinear_arith)
            requires 0 <= amount <= u64::MAX;
    }
    let q: u128 = (amount as u128 * 3600 * ONE as u128) / (time as u128);
    if q > u64::MAX as u128 {
        u64::MAX
    } else {
        q as u64
    }
}

/// Two saturating additions collapse into one.
pub proof fn lemma_sat_add_assoc(a: int, x: int, y: int)
    requires
        0 <= a,
        0 <= x,
        0 <= y,
    ensures
        sat_add_s(sat_add_s(a, x), y) == sat_add_s(a, x + y),
{
}

/// The fixed-point product is monotone in its left argument.
pub proof fn lemma_fx_mul_mono(a1: int, a2: int, b: int)
    requires
        0 <= a1 <= a2,
        0 <= b,
    ensures
        fx_mul_s(a1, b) <= fx_mul_s(a2, b),
{
    lemma_mul_inequality(a1, a2, b);
    lemma_div_is_ordered(a1 * b, a2 * b, ONE as int);
}

/// Multiplying by a factor at most `ONE` cannot increase a value.
pub proof fn lemma_fx_mul_le_left(a: int, b: int)
    requires
        0 <= a,
        0 <= b <= ONE,
    ensures
        fx_mul_s(a, b) <= a,
{
    lemma_mul_inequality(b, ONE as int, a);
    assert(a * b == b * a) by (nonlinear_arith);
    lemma_div_is_ordered(a * b, a * (ONE as int), ONE as int);
    assert(a * (ONE as int) / (ONE as int) == a) by (nonlinear_arith)
        requires (ONE as int) > 0;
}

/// Multiplying by exactly `ONE` is the identity.
pub proof fn lemma_fx_mul_one(a: int)
    requires
        0 <= a <= u64::MAX,
    ensures
        fx_mul_s(a, ONE as int) == a,
{
    assert(a * (ONE as int) / (ONE as int) == a) by (nonlinear_arith)
        requires (ONE as int) > 0;
}

/// The fixed-point product of non-negative values is non-negative.
pub proof fn lemma_fx_mul_nonneg(a: int, b: int)
    requires
        0 <= a,
        0 <= b,
    ensures
        0 <= fx_mul_s(a, b),
{
    assert(a * b >= 0) by (nonlinear_arith)
        requires 0 <= a, 0 <= b;
    lemma_div_is_ordered(0, a * b, ONE as int);
}

/// The fixed-point quotient of non-negative values is non-negative.
pub proof fn lemma_fx_div_nonneg(a: int, b: int)
    requires
        0 <= a,
        0 <= b,
    ensures
        0 <= fx_div_s(a, b),
{
    if b != 0 {
        lemma_mul_inequality(0, a, ONE as int);
        lemma_div_is_ordered(0, a * (ONE as int), b);
    }
}

/// The fixed-point quotient is monotone in its numerator.
pub proof fn lemma_fx_div_mono(a1: int, a2: int, b: int)
    requires
        0 <= a1 <= a2,
        0 <= b,
    ensures
        fx_div_s(a1, b) <= fx_div_s(a2, b),
{
    if b != 0 {
        lemma_mul_inequality(a1, a2, ONE as int);
        lemma_div_is_ordered(a1 * (ONE as int), a2 * (ONE as int), b);
    }
}

/// Dividing a value by itself gives exactly `ONE`.
pub proof fn lemma_fx_div_self(a: int)
    requires
        1 <= a,
    ensures
        fx_div_s(a, a) == ONE as int,
{
    assert(a * (ONE as int) / a == ONE as int) by (nonlinear_arith)
        requires a >= 1;
}

} // verus!
