//! Fixed-point helpers shared by the whole pipeline.
//!
//! A scaled value `v` stands for the real number `v / SCALE`; `SCALE` is one
//! thousand, so one unit is a thousandth. Division of signed scaled values is
//! truncating (toward zero), stated by `tdiv`.

use vstd::prelude::*;

verus! {

/// One fixed-point unit: stored values are in thousandths.
pub const SCALE: i64 = 1000;

/// Truncating (toward zero) integer division, the rounding that every
/// down-scaling step of the pipeline uses.
pub open spec fn tdiv(n: int, d: int) -> int {
    if n >= 0 {
        n / d
    } else {
        -((-n) / d)
    }
}

/// Truncating division of a signed value by a positive divisor.
pub fn div_trunc(n: i64, d: i64) -> (q: i64)
    requires
        d > 0,
        n > i64::MIN,
    ensures
        q == tdiv(n as int, d as int),
{
    if n >= 0 {
        n / d
    } else {
        -((-n) / d)
    }
}

/// Truncating division stays within a symmetric bound: if `|n| <= d * b`
/// then `|tdiv(n, d)| <= b`.
pub proof fn lemma_tdiv_bound(n: int, d: int, b: int)
    requires
        d > 0,
        b >= 0,
        -(d * b) <= n <= d * b,
    ensures
        -b <= tdiv(n, d) <= b,
{
    if n >= 0 {
        assert(n / d <= b) by (nonlinear_arith)
            requires d > 0, b >= 0, n >= 0, n <= d * b;
        assert(n / d >= 0) by (nonlinear_arith)
            requires d > 0, n >= 0;
    } else {
        assert((-n) / d <= b) by (nonlinear_arith)
            requires d > 0, b >= 0, -n >= 0, -n <= d * b;
        assert((-n) / d >= 0) by (nonlinear_arith)
            requires d > 0, -n >= 0;
    }
}

/// Truncating division is monotone in the dividend, for dividends of one sign.
pub proof fn lemma_tdiv_nonneg(n: int, d: int)
    requires
        d > 0,
        n >= 0,
    ensures
        0 <= tdiv(n, d) <= n,
{
    assert(0 <= n / d <= n) by (nonlinear_arith)
        requires d > 0, n >= 0;
}

/// Clamp a value into `[lo, hi]`.
pub fn clamp_i64(v: i64, lo: i64, hi: i64) -> (r: i64)
    requires
        lo <= hi,
    ensures
        r == clamp_spec(v as int, lo as int, hi as int),
        lo <= r <= hi,
{
    if v < lo {
        lo
    } else if v > hi {
        hi
    } else {
        v
    }
}

/// What `clamp_i64` returns.
pub open spec fn clamp_spec(v: int, lo: int, hi: int) -> int {
    if v < lo {
        lo
    } else if v > hi {
        hi
    } else {
        v
    }
}

/// Whether `r` is the integer square root of `v`: the unique nonnegative
/// integer whose square is at most `v` while the next square is above it.
pub open spec fn is_sqrt(r: int, v: int) -> bool {
    r >= 0 && r * r <= v && v < (r + 1) * (r + 1)
}

/// The integer square root of a nonnegative value, as a spec-level function.
pub open spec fn sqrt_of(v: int) -> int {
    choose|r: int| is_sqrt(r, v)
}

/// Two integer square roots of the same value are equal.
pub proof fn lemma_sqrt_unique(a: int, b: int, v: int)
    requires
        is_sqrt(a, v),
        is_sqrt(b, v),
    ensures
        a == b,
{
    if a < b {
        assert((a + 1) * (a + 1) <= b * b) by (nonlinear_arith)
            requires 0 <= a, a < b;
    }
    if b < a {
        assert((b + 1) * (b + 1) <= a * a) by (nonlinear_arith)
            requires 0 <= b, b < a;
    }
}

/// A witness makes `sqrt_of` definite.
pub proof fn lemma_sqrt_of(r: int, v: int)
    requires
        is_sqrt(r, v),
    ensures
        sqrt_of(v) == r,
{
    let c = choose|x: int| is_sqrt(x, v);
    assert(is_sqrt(c, v));
    lemma_sqrt_unique(c, r, v);
}

/// Integer square root by binary search.
pub fn isqrt(v: u64) -> (r: u64)
    ensures
        is_sqrt(r as int, v as int),
        r == sqrt_of(v as int),
{
    let mut lo: u64 = 0;
    let mut hi: u64 = 4_294_967_296;
    assert(v < (hi as int) * (hi as int)) by (nonlinear_arith)
        requires v <= u64::MAX, hi == 4_294_967_296u64;
    while lo + 1 < hi
        invariant
            lo < hi <= 4_294_967_296,
            (lo as int) * (lo as int) <= v,
            v < (hi as int) * (hi as int),
        decreases hi - lo,
    {
        let mid: u64 = lo + (hi - lo) / 2;
        assert(mid * mid <= 0xFFFF_FFFE_0000_0001) by (nonlinear_arith)
            requires mid <= 0xFFFF_FFFFu64;
        if mid * mid <= v {
            lo = mid;
        } else {
            hi = mid;
        }
    }
    proof {
        lemma_sqrt_of(lo as int, v as int);
    }
    lo
}

} // verus!
