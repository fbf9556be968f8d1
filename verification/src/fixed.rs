//! Fixed-point gain arithmetic.
//!
//! A gain is an `i64` counted in units of [`GAIN_ONE`], so that `GAIN_ONE`
//! itself is unity (no change to the signal), `0` is silence and a negative
//! gain inverts phase. During a ramp the running gain is the exact rational
//! `num / den`; a sample is rounded toward zero exactly once, when it is
//! scaled by that rational.

use vstd::prelude::*;
use vstd::arithmetic::div_mod::{
    lemma_div_is_ordered, lemma_div_multiples_vanish, lemma_div_nonincreasing,
    lemma_div_pos_is_pos, lemma_fundamental_div_mod, lemma_fundamental_div_mod_converse,
    lemma_mod_bound,
};

verus! {

/// Number of gain units that make up a gain of exactly one (unity).
pub const GAIN_ONE: i64 = 0x10000;

/// Largest gain magnitude, in gain units, that the node accepts
/// (65536 times unity: far beyond any useful amplification).
pub const GAIN_LIMIT: i64 = 0x1_0000_0000;

/// Largest sample magnitude that the node accepts (covers 32-bit PCM).
pub const SAMPLE_LIMIT: i64 = 0x1_0000_0000;

/// Division that truncates toward zero (for a positive divisor), as Rust's
/// integer division does; `/` on `int` in specifications rounds toward
/// negative infinity instead.
pub open spec fn tdiv(a: int, b: int) -> int
    recommends
        0 < b,
{
    if a >= 0 {
        a / b
    } else {
        -((-a) / b)
    }
}

/// A sample scaled by the rational gain `num / den`, rounded toward zero.
pub open spec fn scaled(s: int, num: int, den: int) -> int
    recommends
        0 < den,
{
    tdiv(s * num, den)
}

/// A sample scaled flat by a gain given in `GAIN_ONE` units.
pub open spec fn flat_sample(gain: int, s: int) -> int {
    scaled(s, gain, GAIN_ONE as int)
}

/// Numerator, over the denominator `n * GAIN_ONE`, of the exact running gain
/// after ramp step `k` (0-based): starting from `prev`, the increment
/// `(cur - prev) / n` has been added `k + 1` times.
pub open spec fn gain_numer(prev: int, cur: int, n: int, k: int) -> int {
    prev * n + (k + 1) * (cur - prev)
}

/// A sample at interleaved index `i` of a buffer with `cc` channels, during a
/// ramp of `n` frames from `prev` to `cur`: frames before `n` take the
/// running gain of their own step; frames at or past `n` hold the ramp's
/// terminal gain.
pub open spec fn ramp_sample(prev: int, cur: int, n: int, cc: int, i: int, s: int) -> int
    recommends
        0 < n,
        0 < cc,
{
    let f = i / cc;
    let k = if f < n {
        f
    } else {
        n - 1
    };
    scaled(s, gain_numer(prev, cur, n, k), n * (GAIN_ONE as int))
}

/// Truncating division stays within `m` when the dividend stays within
/// `b * m`.
pub proof fn lemma_tdiv_bound(a: int, b: int, m: int)
    requires
        0 < b,
        0 <= m,
        -(b * m) <= a <= b * m,
    ensures
        -m <= tdiv(a, b) <= m,
{
    if a >= 0 {
        lemma_div_is_ordered(a, b * m, b);
        lemma_div_multiples_vanish(m, b);
        lemma_div_pos_is_pos(a, b);
    } else {
        lemma_div_is_ordered(-a, b * m, b);
        lemma_div_multiples_vanish(m, b);
        lemma_div_pos_is_pos(-a, b);
    }
}

/// Truncating division is invariant under scaling the dividend and the
/// divisor by the same positive factor.
pub proof fn lemma_tdiv_scale(a: int, b: int, c: int)
    requires
        0 < b,
        0 < c,
    ensures
        tdiv(a * c, b * c) == tdiv(a, b),
{
    if a >= 0 {
        lemma_tdiv_scale_nonneg(a, b, c);
        assert(a * c >= 0) by (nonlinear_arith)
            requires
                a >= 0,
                c > 0,
        ;
    } else {
        lemma_tdiv_scale_nonneg(-a, b, c);
        assert(a * c < 0 && -(a * c) == (-a) * c) by (nonlinear_arith)
            requires
                a < 0,
                c > 0,
        ;
    }
}

proof fn lemma_tdiv_scale_nonneg(a: int, b: int, c: int)
    requires
        0 <= a,
        0 < b,
        0 < c,
    ensures
        (a * c) / (b * c) == a / b,
{
    lemma_fundamental_div_mod(a, b);
    lemma_mod_bound(a, b);
    let q = a / b;
    let r = a % b;
    lemma_div_pos_is_pos(a, b);
    assert(a * c == q * (b * c) + r * c && 0 <= r * c < b * c) by (nonlinear_arith)
        requires
            a == b * q + r,
            0 <= r < b,
            0 < c,
    ;
    lemma_fundamental_div_mod_converse(a * c, b * c, q, r * c);
}

/// A sample scaled by `num / den`, rounded toward zero, as [`scaled`] states.
pub fn scale_sample(s: i64, num: i128, den: i128) -> (r: i64)
    requires
        0 < den,
        -0x4000_0000_0000_0000_0000_0000_0000_0000 < (s as int) * (num as int)
            < 0x4000_0000_0000_0000_0000_0000_0000_0000,
        i64::MIN <= scaled(s as int, num as int, den as int) <= i64::MAX,
    ensures
        r as int == scaled(s as int, num as int, den as int),
{
    let p: i128 = (s as i128) * num;
    let q: i128 = if p >= 0 {
        proof {
            lemma_div_pos_is_pos(p as int, den as int);
            lemma_div_nonincreasing(p as int, den as int);
        }
        ((p as u128) / (den as u128)) as i128
    } else {
        proof {
            lemma_div_pos_is_pos(-(p as int), den as int);
            lemma_div_nonincreasing(-(p as int), den as int);
        }
        let m: u128 = ((-p) as u128) / (den as u128);
        -(m as i128)
    };
    q as i64
}

} // verus!
