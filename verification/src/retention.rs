//! The retention model: recall probability as a power law in the
//! interval-growth factor.
//!
//! Given an empirically measured pair (recall ratio `m`, interval factor
//! `mf`) and a target interval factor `f`, the effective per-review recall
//! probability is `m ^ (f / mf)`.  In Q20 fixed point this is computed as
//! `exp2(-(f / mf) * (-log2 m))`: a binary-digit `-log2` over `(0, 1]`, and
//! an `exp2` obtained by inverting that same `-log2` with a binary search.
//! The search keeps the whole pipeline provably monotone in `f`, and the
//! result is clamped to the representable open unit interval.

use vstd::prelude::*;
use vstd::arithmetic::div_mod::lemma_div_is_ordered;
use vstd::arithmetic::mul::lemma_mul_inequality;
use vstd::arithmetic::power2::{pow2, lemma2_to64, lemma_pow2_strictly_increases, lemma_pow2_adds};
use crate::fx::{ONE, fx_mul, fx_div, fx_mul_s, fx_div_s, min_s, max_s};
use crate::fx::{lemma_fx_mul_mono, lemma_fx_div_mono, lemma_fx_div_self, lemma_fx_mul_one,
    lemma_fx_div_nonneg};

verus! {

/// Natural logarithm of two in Q20 fixed point, rounded down.
pub const LN2: u64 = 726817;

/// One fixed-point squaring step, `m * m / ONE`, truncated.
pub open spec fn sq_s(m: int) -> int {
    m * m / (ONE as int)
}

/// The `i` low binary digits of `log2(m / ONE)` for `m` in `[ONE, 2*ONE)`,
/// as an integer in `[0, pow2(i))`: the classic square-and-compare digit
/// recurrence.
pub open spec fn l2_frac_s(m: int, i: nat) -> int
    decreases i,
{
    if i == 0 {
        0
    } else {
        let s = sq_s(m);
        if s >= 2 * (ONE as int) {
            pow2((i - 1) as nat) as int + l2_frac_s(s / 2, (i - 1) as nat)
        } else {
            l2_frac_s(s, (i - 1) as nat)
        }
    }
}

/// `-log2(m / ONE)` in Q20 fixed point for `m` in `[1, 2*ONE)`:
/// each doubling needed to normalize `m` into `[ONE, 2*ONE)` contributes
/// `ONE`, and the fractional digits of the normalized value are subtracted.
pub open spec fn neg_log2_s(m: int) -> int
    decreases 2 * (ONE as int) - m when 1 <= m < 2 * (ONE as int)
{
    if m >= ONE {
        -l2_frac_s(m, 20)
    } else {
        ONE + neg_log2_s(2 * m)
    }
}

/// A squaring step keeps a normalized value within `[ONE, 4*ONE)`.
pub proof fn lemma_sq_bounds(m: int)
    requires
        ONE <= m < 2 * (ONE as int),
    ensures
        ONE <= sq_s(m) < 4 * (ONE as int),
{
    assert(m * m >= (ONE as int) * (ONE as int)) by (nonlinear_arith)
        requires m >= ONE as int;
    assert((ONE as int) * (ONE as int) / (ONE as int) == ONE as int) by (nonlinear_arith);
    lemma_div_is_ordered((ONE as int) * (ONE as int), m * m, ONE as int);
    assert(m * m <= (2 * (ONE as int) - 1) * (2 * (ONE as int) - 1)) by (nonlinear_arith)
        requires ONE <= m < 2 * (ONE as int);
    lemma_div_is_ordered(m * m, (2 * (ONE as int) - 1) * (2 * (ONE as int) - 1), ONE as int);
    assert((2 * (ONE as int) - 1) * (2 * (ONE as int) - 1) / (ONE as int) < 4 * (ONE as int))
        by (nonlinear_arith);
}

/// A squaring step is monotone.
pub proof fn lemma_sq_mono(m1: int, m2: int)
    requires
        0 <= m1 <= m2,
    ensures
        sq_s(m1) <= sq_s(m2),
{
    assert(m1 * m1 <= m2 * m2) by (nonlinear_arith)
        requires 0 <= m1 <= m2;
    lemma_div_is_ordered(m1 * m1, m2 * m2, ONE as int);
}

/// The digits of an exact one are all zero.
pub proof fn lemma_l2_frac_one(i: nat)
    ensures
        l2_frac_s(ONE as int, i) == 0,
    decreases i,
{
    if i > 0 {
        assert((ONE as int) * (ONE as int) / (ONE as int) == ONE as int) by (nonlinear_arith);
        lemma_l2_frac_one((i - 1) as nat);
    }
}

/// The digit recurrence yields a value in `[0, pow2(i))`.
pub proof fn lemma_l2_frac_bounds(m: int, i: nat)
    requires
        ONE <= m < 2 * (ONE as int),
    ensures
        0 <= l2_frac_s(m, i) < pow2(i),
    decreases i,
{
    lemma2_to64();
    if i > 0 {
        lemma_sq_bounds(m);
        let s = sq_s(m);
        if s >= 2 * (ONE as int) {
            lemma_l2_frac_bounds(s / 2, (i - 1) as nat);
            lemma_pow2_adds(1, (i - 1) as nat);
        } else {
            lemma_l2_frac_bounds(s, (i - 1) as nat);
            lemma_pow2_strictly_increases((i - 1) as nat, i);
        }
    }
}

/// The digit recurrence is monotone in the normalized value.
pub proof fn lemma_l2_frac_mono(m1: int, m2: int, i: nat)
    requires
        ONE <= m1 <= m2 < 2 * (ONE as int),
    ensures
        l2_frac_s(m1, i) <= l2_frac_s(m2, i),
    decreases i,
{
    if i > 0 {
        lemma_sq_bounds(m1);
        lemma_sq_bounds(m2);
        lemma_sq_mono(m1, m2);
        let s1 = sq_s(m1);
        let s2 = sq_s(m2);
        if s1 >= 2 * (ONE as int) {
            lemma_div_is_ordered(s1, s2, 2);
            lemma_l2_frac_mono(s1 / 2, s2 / 2, (i - 1) as nat);
        } else if s2 < 2 * (ONE as int) {
            lemma_l2_frac_mono(s1, s2, (i - 1) as nat);
        } else {
            lemma_l2_frac_bounds(s1, (i - 1) as nat);
            lemma_l2_frac_bounds(s2 / 2, (i - 1) as nat);
        }
    }
}

/// Lower bounds for `neg_log2_s`: at most one is lost on the normalized
/// side, and any value strictly below one has a strictly positive log.
pub proof fn lemma_neg_log2_lower(m: int)
    requires
        1 <= m < 2 * (ONE as int),
    ensures
        m >= ONE ==> neg_log2_s(m) > -(ONE as int),
        m < ONE ==> neg_log2_s(m) >= 1,
    decreases 2 * (ONE as int) - m,
{
    if m >= ONE {
        lemma_l2_frac_bounds(m, 20);
        lemma2_to64();
    } else {
        lemma_neg_log2_lower(2 * m);
    }
}

/// If `m * pow2(j) >= ONE` then at most `j` doublings are needed, so the
/// log is at most `j * ONE`.
pub proof fn lemma_neg_log2_upper(m: int, j: nat)
    requires
        1 <= m < 2 * (ONE as int),
        m * pow2(j) >= ONE,
    ensures
        neg_log2_s(m) <= j * (ONE as int),
    decreases 2 * (ONE as int) - m,
{
    if m >= ONE {
        lemma_l2_frac_bounds(m, 20);
        assert(j * (ONE as int) >= 0) by (nonlinear_arith)
            requires j >= 0;
    } else {
        lemma2_to64();
        if j == 0 {
            assert(m * 1 == m) by (nonlinear_arith);
            assert(false);
        } else {
            lemma_pow2_adds(1, (j - 1) as nat);
            assert(m * (2 * pow2((j - 1) as nat)) == (2 * m) * pow2((j - 1) as nat))
                by (nonlinear_arith);
            lemma_neg_log2_upper(2 * m, (j - 1) as nat);
        }
    }
}

/// Range of `neg_log2_s` on its public domain `[1, ONE]`.
pub proof fn lemma_neg_log2_range(m: int)
    requires
        1 <= m <= ONE,
    ensures
        0 <= neg_log2_s(m) <= 20 * (ONE as int),
        m < ONE ==> neg_log2_s(m) >= 1,
        m == ONE ==> neg_log2_s(m) == 0,
{
    lemma_neg_log2_lower(m);
    lemma2_to64();
    assert(m * pow2(20) >= 1 * pow2(20)) by (nonlinear_arith)
        requires m >= 1;
    lemma_neg_log2_upper(m, 20);
    if m == ONE {
        lemma_l2_frac_one(20);
    }
}

/// `neg_log2_s` is antitone: a larger value has a smaller negated log.
pub proof fn lemma_neg_log2_antitone(m1: int, m2: int)
    requires
        1 <= m1 <= m2 < 2 * (ONE as int),
    ensures
        neg_log2_s(m1) >= neg_log2_s(m2),
    decreases 2 * (ONE as int) - m1,
{
    if m1 >= ONE {
        lemma_l2_frac_mono(m1, m2, 20);
    } else if m2 >= ONE {
        lemma_neg_log2_lower(m1);
        lemma_l2_frac_bounds(m2, 20);
    } else {
        lemma_neg_log2_antitone(2 * m1, 2 * m2);
    }
}

/// Executable power of two for small exponents.
fn pow2_u64(k: u64) -> (r: u64)
    requires
        k <= 20,
    ensures
        r == pow2(k as nat),
    decreases k,
{
    proof {
        lemma2_to64();
    }
    if k == 0 {
        1
    } else {
        let h = pow2_u64(k - 1);
        proof {
            if ((k - 1) as nat) < 20 {
                lemma_pow2_strictly_increases((k - 1) as nat, 20);
            }
            lemma_pow2_adds(1, (k - 1) as nat);
        }
        2 * h
    }
}

/// One executable squaring step.
fn sq(m: u64) -> (r: u64)
    requires
        ONE <= m < 2 * ONE,
    ensures
        r == sq_s(m as int),
{
    proof {
        lemma_sq_bounds(m as int);
    }
    ((m as u128 * m as u128) / (ONE as u128)) as u64
}

/// Executable digit recurrence for the fractional part of the log.
fn l2_frac(m: u64, i: u64) -> (r: u64)
    requires
        ONE <= m < 2 * ONE,
        i <= 20,
    ensures
        r == l2_frac_s(m as int, i as nat),
    decreases i,
{
    if i == 0 {
        0
    } else {
        let s = sq(m);
        proof {
            lemma_sq_bounds(m as int);
        }
        if s >= 2 * ONE {
            let w = pow2_u64(i - 1);
            let rest = l2_frac(s / 2, i - 1);
            proof {
                lemma_l2_frac_bounds((s / 2) as int, (i - 1) as nat);
                lemma2_to64();
                if ((i - 1) as nat) < 20 {
                    lemma_pow2_strictly_increases((i - 1) as nat, 20);
                }
            }
            w + rest
        } else {
            l2_frac(s, i - 1)
        }
    }
}

/// `-log2(m / ONE)` in Q20 fixed point, for `m` in `[1, ONE]`.
pub fn neg_log2(m: u64) -> (r: u64)
    requires
        1 <= m <= ONE,
    ensures
        r as int == neg_log2_s(m as int),
{
    let mut x: u64 = m;
    let mut k: u64 = 0;
    proof {
        lemma2_to64();
        assert((m as int) * 1 == m as int);
    }
    while x < ONE
        invariant
            1 <= x < 2 * ONE,
            k <= 20,
            x as int == (m as int) * pow2(k as nat),
            neg_log2_s(m as int) == k * (ONE as int) + neg_log2_s(x as int),
        decreases 2 * ONE - x,
    {
        proof {
            lemma2_to64();
            assert(pow2(k as nat) <= (m as int) * pow2(k as nat)) by (nonlinear_arith)
                requires m >= 1;
            if k as nat >= 20 {
                if k as nat > 20 {
                    lemma_pow2_strictly_increases(20, k as nat);
                }
                assert(false);
            }
            lemma_pow2_adds(1, k as nat);
            assert((m as int) * (2 * pow2(k as nat)) == 2 * ((m as int) * pow2(k as nat)))
                by (nonlinear_arith);
        }
        x = 2 * x;
        k = k + 1;
    }
    let f = l2_frac(x, 20);
    proof {
        lemma_l2_frac_bounds(x as int, 20);
        lemma2_to64();
        if k == 0 {
            assert((m as int) * 1 == m as int) by (nonlinear_arith);
            lemma_l2_frac_one(20);
        }
    }
    k * ONE - f
}

/// The largest `r` in `[1, hi]` whose negated log is at least `t`, or `1`
/// when no such value exists: the inverse of `neg_log2_s`, rounded so that
/// the result never undershoots the exact power of two.
pub open spec fn max_r_s(t: int, hi: int) -> int
    decreases hi when hi >= 1
{
    if hi <= 1 {
        1
    } else if neg_log2_s(hi) >= t {
        hi
    } else {
        max_r_s(t, hi - 1)
    }
}

/// `exp2(-t / ONE)` in Q20 fixed point, clamped below at one unit.
pub open spec fn exp2_neg_s(t: int) -> int {
    max_r_s(t, ONE as int)
}

pub proof fn lemma_max_r_bounds(t: int, hi: int)
    requires
        1 <= hi,
    ensures
        1 <= max_r_s(t, hi) <= hi,
    decreases hi,
{
    if hi > 1 && neg_log2_s(hi) < t {
        lemma_max_r_bounds(t, hi - 1);
    }
}

/// Any qualifying value is a lower bound for the maximum.
pub proof fn lemma_max_r_ge(t: int, hi: int, v: int)
    requires
        1 <= v <= hi,
        neg_log2_s(v) >= t,
    ensures
        max_r_s(t, hi) >= v,
    decreases hi,
{
    if hi > 1 && neg_log2_s(hi) < t {
        lemma_max_r_ge(t, hi - 1, v);
    }
}

/// A value that qualifies while everything above it fails is the maximum.
pub proof fn lemma_max_r_char(t: int, hi: int, v: int)
    requires
        1 <= v <= hi,
        v == 1 || neg_log2_s(v) >= t,
        forall|j: int| v < j <= hi ==> neg_log2_s(j) < t,
    ensures
        max_r_s(t, hi) == v,
    decreases hi,
{
    if hi > v {
        lemma_max_r_char(t, hi - 1, v);
    }
}

/// Raising the target can only lower the maximum.
pub proof fn lemma_max_r_antitone(t1: int, t2: int, hi: int)
    requires
        t1 <= t2,
        1 <= hi,
    ensures
        max_r_s(t1, hi) >= max_r_s(t2, hi),
    decreases hi,
{
    if hi > 1 {
        if neg_log2_s(hi) >= t2 {
        } else if neg_log2_s(hi) >= t1 {
            lemma_max_r_bounds(t2, hi - 1);
        } else {
            lemma_max_r_antitone(t1, t2, hi - 1);
        }
    }
}

/// `exp2(-t / ONE)` in Q20 fixed point, by binary search over the
/// antitone `neg_log2`.
pub fn exp2_neg(t: u64) -> (r: u64)
    ensures
        r as int == exp2_neg_s(t as int),
        1 <= r <= ONE,
{
    let mut lo: u64 = 1;
    let mut hi: u64 = ONE;
    while lo < hi
        invariant
            1 <= lo <= hi <= ONE,
            lo == 1 || neg_log2_s(lo as int) >= t,
            forall|j: int| hi < j <= ONE ==> neg_log2_s(j) < t,
        decreases hi - lo,
    {
        let mid = lo + (hi - lo + 1) / 2;
        let lm = neg_log2(mid);
        if lm >= t {
            lo = mid;
        } else {
            proof {
                assert forall|j: int| mid - 1 < j <= ONE implies neg_log2_s(j) < t by {
                    if j <= hi {
                        lemma_neg_log2_antitone(mid as int, j);
                    }
                }
            }
            hi = mid - 1;
        }
    }
    proof {
        lemma_max_r_char(t as int, ONE as int, lo as int);
    }
    lo
}

/// The retention model over mathematical integers.  For a measured recall
/// ratio `m` strictly inside `(0, ONE)` the value is the fixed-point power
/// `(m / ONE) ^ (f / mf)`, clamped into the representable open unit
/// interval `[1, ONE - 1]` and onto the mathematically correct side of `m`
/// (at most `m` when the exponent is at least one, at least `m` otherwise).
/// A measured ratio of zero yields zero; one of `ONE` or more is treated as
/// just under one, so that parameter sweeps over degenerate corners keep
/// running instead of failing.
pub open spec fn retention_model_s(m: int, mf: int, f: int) -> int {
    if m <= 0 {
        0
    } else if m >= ONE {
        (ONE - 1) as int
    } else {
        let e = fx_div_s(f, mf);
        let t = fx_mul_s(e, neg_log2_s(m));
        let r = exp2_neg_s(t);
        if e < ONE {
            min_s(max_s(r, m), (ONE - 1) as int)
        } else {
            max_s(min_s(r, m), 1)
        }
    }
}

/// Effective per-review recall probability for a target interval-growth
/// factor, derived from a measured reference pair by the power law
/// `retention = measured_ratio ^ (interval_factor / measured_interval_factor)`,
/// in Q20 fixed point.
///
/// When the target factor equals the measured one the measured ratio is
/// returned exactly; for any measured ratio strictly inside the unit
/// interval the result stays strictly inside it.
pub fn retention_model(measured_ratio: u64, measured_interval_factor: u64, interval_factor: u64) -> (r: u64)
    ensures
        r as int == retention_model_s(
            measured_ratio as int,
            measured_interval_factor as int,
            interval_factor as int,
        ),
        r <= ONE - 1,
        1 <= measured_ratio < ONE ==> 1 <= r,
        1 <= measured_ratio < ONE && 1 <= measured_interval_factor
            && interval_factor == measured_interval_factor ==> r == measured_ratio,
{
    if measured_ratio == 0 {
        0
    } else if measured_ratio >= ONE {
        ONE - 1
    } else {
        let e = fx_div(interval_factor, measured_interval_factor);
        let l = neg_log2(measured_ratio);
        let t = fx_mul(e, l);
        let r0 = exp2_neg(t);
        proof {
            lemma_neg_log2_range(measured_ratio as int);
            if 1 <= measured_interval_factor && interval_factor == measured_interval_factor {
                lemma_fx_div_self(measured_interval_factor as int);
                assert(e == ONE);
                lemma_fx_mul_one(neg_log2_s(measured_ratio as int));
                assert((ONE as int) * neg_log2_s(measured_ratio as int)
                    == neg_log2_s(measured_ratio as int) * (ONE as int)) by (nonlinear_arith);
                assert(t as int == neg_log2_s(measured_ratio as int));
                lemma_max_r_ge(t as int, ONE as int, measured_ratio as int);
            }
        }
        if e < ONE {
            let a = if r0 >= measured_ratio { r0 } else { measured_ratio };
            if a <= ONE - 1 { a } else { ONE - 1 }
        } else {
            let b = if r0 <= measured_ratio { r0 } else { measured_ratio };
            if b >= 1 { b } else { 1 }
        }
    }
}

/// For a fixed reference pair whose measured ratio lies strictly below
/// one, the modelled retention never increases as the target interval
/// factor grows.  In exact arithmetic the power law is strictly
/// decreasing; rounding to Q20 fixed point flattens neighbouring inputs
/// onto plateaus, so equality between nearby factors can occur.
pub proof fn lemma_retention_model_antitone(m: int, mf: int, f1: int, f2: int)
    requires
        1 <= m < ONE,
        0 <= mf,
        0 <= f1 <= f2,
    ensures
        retention_model_s(m, mf, f1) >= retention_model_s(m, mf, f2),
{
    lemma_neg_log2_range(m);
    let l = neg_log2_s(m);
    lemma_fx_div_nonneg(f1, mf);
    lemma_fx_div_mono(f1, f2, mf);
    let e1 = fx_div_s(f1, mf);
    let e2 = fx_div_s(f2, mf);
    lemma_fx_mul_mono(e1, e2, l);
    let t1 = fx_mul_s(e1, l);
    let t2 = fx_mul_s(e2, l);
    lemma_max_r_antitone(t1, t2, ONE as int);
    lemma_max_r_bounds(t1, ONE as int);
    lemma_max_r_bounds(t2, ONE as int);
}

/// Long-run survival estimate `(1 - r) / (-ln r)` in Q20 fixed point: the
/// expected fraction of scheduled cards that remain durably known when the
/// per-review recall probability is `r / ONE`.  The natural log comes from
/// `neg_log2_s` scaled by `ln 2`; for an `r` within a rounding unit of one
/// the denominator truncates to zero and the quotient saturates.
pub open spec fn retained_fraction_s(r: int) -> int {
    fx_div_s((ONE as int) - r, fx_mul_s(neg_log2_s(r), LN2 as int))
}

pub fn retained_fraction(r: u64) -> (q: u64)
    requires
        1 <= r <= ONE - 1,
    ensures
        q as int == retained_fraction_s(r as int),
{
    let l = neg_log2(r);
    let denom = fx_mul(l, LN2);
    fx_div(ONE - r, denom)
}

} // verus!
