//! Fixed-point cosine over rational fractions of a full turn.
//!
//! `cos_turns(num, den)` evaluates the cosine of `2*pi*num/den` in milli
//! units. Internally the angle is reduced by the cosine's symmetries to the
//! first quarter turn and a Taylor polynomial is evaluated in micro-radian
//! fixed point. The result is defined exactly by `cos_turns_spec`.

use vstd::prelude::*;
use crate::fixed::clamp_spec;
use crate::fixed::clamp_i64;
use crate::fixed::tdiv;

verus! {

/// Quarter-wave Taylor polynomial, micro fixed point. For an angle `th` in
/// micro-radians within the first quarter turn, the value is
/// `1 - th^2/2 + th^4/24 - th^6/720 + th^8/40320`, each power down-scaled to
/// micro units, clamped into one unit either way.
pub open spec fn cos_quarter_micro(th: int) -> int {
    let th2 = th * th / 1_000_000;
    let th4 = th2 * th2 / 1_000_000;
    let th6 = th4 * th2 / 1_000_000;
    let th8 = th6 * th2 / 1_000_000;
    clamp_spec(1_000_000 - th2 / 2 + th4 / 24 - th6 / 720 + th8 / 40320, -1_000_000, 1_000_000)
}

/// What `cos_turns` returns: the angle `2*pi*num/den` reduced first to half
/// a turn (cosine is even around a full turn), then to a quarter turn
/// (cosine flips sign around half a turn), then fed to the quarter-wave
/// polynomial and brought down to milli units.
pub open spec fn cos_turns_spec(num: int, den: int) -> int {
    let r = num % den;
    let th = 6_283_185 * r / den;
    let th_half = if th > 3_141_593 { 6_283_185 - th } else { th };
    if th_half > 1_570_796 {
        -tdiv(cos_quarter_micro(3_141_593 - th_half), 1000)
    } else {
        tdiv(cos_quarter_micro(th_half), 1000)
    }
}

/// Quarter-wave polynomial, executable form.
fn cos_quarter(th: u64) -> (c: i64)
    requires
        th <= 1_570_797,
    ensures
        c == cos_quarter_micro(th as int),
        -1_000_000 <= c <= 1_000_000,
{
    assert(th * th <= 2_467_403_615_209) by (nonlinear_arith)
        requires th <= 1_570_797u64;
    let th2: u64 = th * th / 1_000_000;
    assert(th2 * th2 <= 2_467_403 * 2_467_403) by (nonlinear_arith)
        requires th2 <= 2_467_403u64;
    let th4: u64 = th2 * th2 / 1_000_000;
    assert(th4 * th2 <= 6_088_081 * 2_467_403) by (nonlinear_arith)
        requires th4 <= 6_088_081u64, th2 <= 2_467_403u64;
    let th6: u64 = th4 * th2 / 1_000_000;
    assert(th6 * th2 <= 15_021_767 * 2_467_403) by (nonlinear_arith)
        requires th6 <= 15_021_767u64, th2 <= 2_467_403u64;
    let th8: u64 = th6 * th2 / 1_000_000;
    let raw: i64 = 1_000_000i64 - (th2 / 2) as i64 + (th4 / 24) as i64 - (th6 / 720) as i64
        + (th8 / 40320) as i64;
    clamp_i64(raw, -1_000_000, 1_000_000)
}

/// Cosine of `2*pi*num/den`, in milli units. The result always lies in
/// `[-1000, 1000]`, and a whole number of turns gives exactly one.
pub fn cos_turns(num: u64, den: u64) -> (c: i64)
    requires
        1 <= den <= 1_000_000,
    ensures
        c == cos_turns_spec(num as int, den as int),
        -1000 <= c <= 1000,
        num % den == 0 ==> c == 1000,
{
    let r: u64 = num % den;
    assert(6_283_185int * r / (den as int) <= 6_283_185) by (nonlinear_arith)
        requires 1 <= den, r < den;
    let th: u64 = 6_283_185 * r / den;
    let th_half: u64 = if th > 3_141_593 { 6_283_185 - th } else { th };
    let c: i64 = if th_half > 1_570_796 {
        let q = cos_quarter(3_141_593 - th_half);
        -crate::fixed::div_trunc(q, 1000)
    } else {
        let q = cos_quarter(th_half);
        crate::fixed::div_trunc(q, 1000)
    };
    proof {
        let arg: int = if th_half > 1_570_796 { 3_141_593 - th_half } else { th_half as int };
        crate::fixed::lemma_tdiv_bound(cos_quarter_micro(arg), 1000, 1000);
        if num % den == 0 {
            assert(r == 0);
            assert(th == 0);
            assert(cos_quarter_micro(0) == 1_000_000);
            assert(tdiv(1_000_000, 1000) == 1000);
        }
    }
    c
}

} // verus!
