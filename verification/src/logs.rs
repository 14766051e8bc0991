//! Fixed-point base-ten logarithm, decibel conversion and the ERB
//! perceptual weight.
//!
//! `log10_milli(v)` evaluates `1000 * log10(v / 1000)` for a milli-unit
//! value `v`: the whole part comes from scaling `v` into one decade by
//! powers of ten, the fraction from nine squaring steps that extract binary
//! digits of the logarithm. The result is defined exactly by
//! `log10_milli_spec`.

use vstd::prelude::*;
use crate::fixed::tdiv;

verus! {

/// Ten to the `k`-th power.
pub open spec fn pow10(k: nat) -> int
    decreases k,
{
    if k == 0 {
        1
    } else {
        10 * pow10((k - 1) as nat)
    }
}

pub proof fn lemma_pow10_pos(k: nat)
    ensures
        pow10(k) >= 1,
    decreases k,
{
    if k > 0 {
        lemma_pow10_pos((k - 1) as nat);
    }
}

pub proof fn lemma_pow10_mono(a: nat, b: nat)
    requires
        a <= b,
    ensures
        pow10(a) <= pow10(b),
    decreases b,
{
    if a < b {
        lemma_pow10_mono(a, (b - 1) as nat);
        lemma_pow10_pos((b - 1) as nat);
    }
}

/// How many divisions by ten bring `v` under ten units.
pub open spec fn dn_steps(v: int) -> nat
    decreases v,
{
    if v < 10_000 {
        0
    } else {
        1 + dn_steps(v / 10)
    }
}

/// The value `v` is left at after those divisions.
pub open spec fn dn_val(v: int) -> int
    decreases v,
{
    if v < 10_000 {
        v
    } else {
        dn_val(v / 10)
    }
}

/// Termination measure for the scaling-up recursion: how far below one
/// unit the value still is.
pub open spec fn up_measure(v: int) -> int {
    if 1 <= v < 1000 {
        1000 - v
    } else {
        0
    }
}

/// How many multiplications by ten bring `v` up to one unit.
pub open spec fn up_steps(v: int) -> nat
    decreases up_measure(v),
{
    if v >= 1000 {
        0
    } else if v < 1 {
        0
    } else {
        1 + up_steps(10 * v)
    }
}

/// The value `v` is left at after those multiplications.
pub open spec fn up_val(v: int) -> int
    decreases up_measure(v),
{
    if v >= 1000 {
        v
    } else if v < 1 {
        v
    } else {
        up_val(10 * v)
    }
}

/// Binary-digit extraction of the fractional part of the logarithm: each
/// step squares the mantissa; landing beyond one decade contributes the
/// current digit weight and divides the mantissa back down.
pub open spec fn frac_acc(v: int, bit: int) -> int
    decreases bit,
{
    if bit <= 0 {
        0
    } else {
        let v2 = v * v / 1000;
        if v2 >= 10_000 {
            bit + frac_acc(v2 / 10, bit / 2)
        } else {
            frac_acc(v2, bit / 2)
        }
    }
}

/// What `log10_milli` returns.
pub open spec fn log10_milli_spec(v: int) -> int {
    if v >= 1000 {
        1000 * dn_steps(v) + frac_acc(dn_val(v), 500)
    } else {
        frac_acc(up_val(v), 500) - 1000 * up_steps(v)
    }
}

/// The fractional accumulator stays within twice its leading digit weight.
pub proof fn lemma_frac_acc_bounds(v: int, bit: int)
    requires
        bit >= 0,
    ensures
        0 <= frac_acc(v, bit) <= 2 * bit,
    decreases bit,
{
    if bit > 0 {
        let v2 = v * v / 1000;
        if v2 >= 10_000 {
            lemma_frac_acc_bounds(v2 / 10, bit / 2);
        } else {
            lemma_frac_acc_bounds(v2, bit / 2);
        }
    }
}

/// A mantissa of exactly one unit has no fractional digits: squaring it
/// never leaves the decade.
pub proof fn lemma_frac_acc_unit(bit: int)
    requires
        bit >= 0,
    ensures
        frac_acc(1000, bit) == 0,
    decreases bit,
{
    if bit > 0 {
        lemma_frac_acc_unit(bit / 2);
    }
}

/// The whole-part count is held down by the value itself: ten to the count,
/// in milli units, is at most `v`.
pub proof fn lemma_dn_steps_le(v: int)
    requires
        v >= 1000,
    ensures
        pow10(dn_steps(v)) * 1000 <= v,
    decreases v,
{
    if v < 10_000 {
        assert(pow10(0) == 1);
    } else {
        lemma_dn_steps_le(v / 10);
        assert(v == 10 * (v / 10) + v % 10);
        assert(pow10(dn_steps(v)) == 10 * pow10(dn_steps(v / 10)));
    }
}

/// Bound the whole-part count from a bound on the value.
pub proof fn lemma_dn_steps_bound(v: int, k: nat)
    requires
        1000 <= v,
        v < pow10(k + 1) * 1000,
    ensures
        dn_steps(v) <= k,
{
    lemma_dn_steps_le(v);
    if dn_steps(v) > k {
        lemma_pow10_mono(k + 1, dn_steps(v));
    }
}

/// Fractional digits of the logarithm of a one-decade mantissa.
fn frac_part(x: u64) -> (f: i64)
    requires
        1000 <= x <= 9999,
    ensures
        f == frac_acc(x as int, 500),
        0 <= f <= 1000,
{
    let mut y: u64 = x;
    let mut bit: i64 = 500;
    let mut acc: i64 = 0;
    while bit >= 1
        invariant
            1000 <= y <= 9999,
            0 <= bit <= 500,
            0 <= acc <= 1000,
            acc + frac_acc(y as int, bit as int) == frac_acc(x as int, 500),
            acc + 2 * bit <= 1000,
        decreases bit,
    {
        assert(y * y <= 9999 * 9999) by (nonlinear_arith)
            requires y <= 9999u64;
        assert(y * y >= 1000 * 1000) by (nonlinear_arith)
            requires y >= 1000u64;
        let y2: u64 = y * y / 1000;
        if y2 >= 10_000 {
            y = y2 / 10;
            acc = acc + bit;
        } else {
            y = y2;
        }
        bit = bit / 2;
    }
    proof {
        lemma_frac_acc_bounds(x as int, 500);
    }
    acc
}

/// `1000 * log10(v / 1000)` for a milli-unit value, by decade scaling and
/// binary fraction digits. Exact on whole decades: one unit gives zero.
pub fn log10_milli(v: u64) -> (r: i64)
    requires
        1 <= v <= 1_000_000_000_000,
    ensures
        r == log10_milli_spec(v as int),
        -3000 <= r <= 12_994,
        v >= 1000 ==> r >= 0,
        v < 100_000 && v >= 1000 ==> r <= 2_000,
        v == 1000 ==> r == 0,
{
    if v >= 1000 {
        let mut x: u64 = v;
        let mut steps: i64 = 0;
        proof {
            lemma_dn_steps_le(v as int);
            reveal_with_fuel(pow10, 12);
            lemma_dn_steps_bound(v as int, 9);
            if v < 100_000 {
                lemma_dn_steps_bound(v as int, 1);
            }
        }
        while x >= 10_000
            invariant
                1000 <= x <= 1_000_000_000_000,
                steps + dn_steps(x as int) == dn_steps(v as int),
                dn_val(x as int) == dn_val(v as int),
                0 <= steps <= 9,
                dn_steps(v as int) <= 9,
            decreases x,
        {
            x = x / 10;
            steps = steps + 1;
        }
        let f = frac_part(x);
        proof {
            lemma_frac_acc_bounds(dn_val(v as int), 500);
            if v == 1000 {
                lemma_frac_acc_unit(500);
            }
        }
        1000 * steps + f
    } else {
        let mut x: u64 = v;
        let mut steps: i64 = 0;
        while x < 1000
            invariant
                1 <= x <= 9999,
                steps + up_steps(x as int) == up_steps(v as int),
                up_val(x as int) == up_val(v as int),
                0 <= steps <= 3,
                x == v * pow10(steps as nat),
            decreases up_measure(x as int),
        {
            proof {
                reveal_with_fuel(pow10, 5);
                let p = pow10(steps as nat);
                lemma_pow10_pos(steps as nat);
                assert(x >= p) by (nonlinear_arith)
                    requires x == v * p, v >= 1u64, p >= 1;
                if steps >= 3 {
                    lemma_pow10_mono(3, steps as nat);
                }
                assert(pow10((steps + 1) as nat) == 10 * p);
                assert(10 * x == v * (10 * p)) by (nonlinear_arith)
                    requires x == v * p;
            }
            x = x * 10;
            steps = steps + 1;
        }
        let f = frac_part(x);
        f - 1000 * steps
    }
}

/// Decibel value of a milli-unit magnitude: `20 * log10(mag)`, with the
/// zero magnitude floored at -200 dB, the value the pipeline's additive
/// epsilon of 1e-10 yields on silence.
pub open spec fn decibels_spec(mag: int) -> int {
    if mag == 0 {
        -200_000
    } else {
        20 * log10_milli_spec(mag)
    }
}

/// Decibels (milli-dB) of a milli-unit magnitude.
pub fn decibels_milli(mag: u64) -> (db: i64)
    requires
        mag <= 1_000_000_000_000,
    ensures
        db == decibels_spec(mag as int),
        -200_000 <= db <= 259_880,
        mag == 0 ==> db == -200_000,
{
    if mag == 0 {
        -200_000
    } else {
        20 * log10_milli(mag)
    }
}

/// What `erb_weight` returns: `21.4 * log10(0.00437 * f + 1)` in milli
/// units for a milli-hertz frequency `f`.
pub open spec fn erb_spec(freq: int) -> int {
    tdiv(214 * log10_milli_spec(437 * freq / 100_000 + 1000), 10)
}

/// ERB perceptual weight of a frequency at or below the Nyquist limit.
pub fn erb_weight(freq_mhz: u64) -> (erb: i64)
    requires
        freq_mhz <= 22_050_000,
    ensures
        erb == erb_spec(freq_mhz as int),
        0 <= erb <= 42_800,
{
    let arg: u64 = 437 * freq_mhz / 100_000 + 1000;
    let lg = log10_milli(arg);
    crate::fixed::div_trunc(214 * lg, 10)
}

} // verus!
