//! The spectrum analyzer: a windowed forward transform with perceptual
//! weighting and smoothing, and a bank of four fixed band-pass filters.
//!
//! Amplitudes and intensities are milli-unit fixed point (`fixed::SCALE`),
//! frequencies milli-hertz. The transform path's frequency axis and Nyquist
//! cut are fixed to the nominal 44100 Hz calibration of `util`, while the
//! filter bank runs at the rate the analyzer was constructed with; the two
//! need not agree. That asymmetry is a deliberate design constant: if the
//! true capture rate differs from the nominal one, the frequency axis of
//! the spectrum path keeps its nominal calibration.

use vstd::prelude::*;
use crate::fixed::tdiv;
use crate::fixed::sqrt_of;
use crate::util::freq_spec;

verus! {

/// Display resolution hint carried by the analyzer; it does not change the
/// computation.
#[derive(Copy, Clone)]
pub enum Resolution {
    Standard,
    High,
}

/// Defined failures of the analyzer's two entry points.
#[derive(Copy, Clone, Debug, PartialEq, Eq, Structural)]
pub enum SpectrumError {
    /// The spectrum path was handed a frame whose length is not `BUFFER_SZ`.
    WrongLength,
    /// The band-level path was handed no samples at all; its RMS would
    /// divide by zero.
    EmptyInput,
}

/// `2 * pi * f`, in milli-hertz, for a milli-hertz frequency `f`.
pub open spec fn two_pi_freq(f: int) -> int {
    f * 6_283_185 / 1_000_000
}

/// Low-pass smoothing factor of a filter stage with upper edge `high` at
/// sample rate `sr` (both milli-hertz): `dt / (rc + dt)` rewritten over a
/// common denominator as `2*pi*high / (2*pi*high + sr)`, in milli units.
pub open spec fn alpha_low_spec(high: int, sr: int) -> int {
    1000 * two_pi_freq(high) / (two_pi_freq(high) + sr)
}

/// High-pass retention factor of a filter stage with lower edge `low` at
/// sample rate `sr`: `rc / (rc + dt)` rewritten as `sr / (sr + 2*pi*low)`,
/// in milli units. A zero lower edge gives exactly one: the high-pass stage
/// then tracks its input and the band contributes nothing.
pub open spec fn alpha_high_spec(low: int, sr: int) -> int {
    1000 * sr / (sr + two_pi_freq(low))
}

/// One single-pole update: `alpha * x + (1 - alpha) * y`, down-scaled.
pub open spec fn lp_step(alpha: int, x: int, y: int) -> int {
    tdiv(alpha * x + (1000 - alpha) * y, 1000)
}

/// One band-pass filter: a low-pass stage into a high-pass stage, whose
/// difference of outputs passes the band between the two edges. The two
/// state scalars persist across calls.
#[derive(Copy, Clone)]
pub struct BandpassFilter {
    /// Lower band edge, milli-hertz.
    pub low_mhz: u64,
    /// Upper band edge, milli-hertz.
    pub high_mhz: u64,
    /// Low-pass stage state, milli units.
    pub y1: i64,
    /// High-pass stage state, milli units.
    pub y2: i64,
}

impl BandpassFilter {
    /// Well-formedness: edges within the audio range the scaling arithmetic
    /// covers, state within one full-scale amplitude.
    pub open spec fn inv(self) -> bool {
        &&& self.low_mhz <= 100_000_000
        &&& self.high_mhz <= 100_000_000
        &&& -100_000 <= self.y1 <= 100_000
        &&& -100_000 <= self.y2 <= 100_000
    }

    /// A fresh filter for the band between the two edges, with settled
    /// (zero) state.
    pub fn new(low_mhz: u64, high_mhz: u64) -> (f: Self)
        requires
            low_mhz <= 100_000_000,
            high_mhz <= 100_000_000,
        ensures
            f.low_mhz == low_mhz,
            f.high_mhz == high_mhz,
            f.y1 == 0,
            f.y2 == 0,
            f.inv(),
    {
        BandpassFilter { low_mhz, high_mhz, y1: 0, y2: 0 }
    }

    /// Feed one sample through the filter, advancing both stage states and
    /// returning the band-passed value.
    pub fn process(&mut self, x: i64, sample_rate_mhz: u64) -> (out: i64)
        requires
            old(self).inv(),
            -100_000 <= x <= 100_000,
            1 <= sample_rate_mhz <= 1_000_000_000_000,
        ensures
            final(self).low_mhz == old(self).low_mhz,
            final(self).high_mhz == old(self).high_mhz,
            final(self).y1 == lp_step(
                alpha_low_spec(old(self).high_mhz as int, sample_rate_mhz as int),
                x as int,
                old(self).y1 as int,
            ),
            final(self).y2 == lp_step(
                alpha_high_spec(old(self).low_mhz as int, sample_rate_mhz as int),
                final(self).y1 as int,
                old(self).y2 as int,
            ),
            out == final(self).y1 - final(self).y2,
            final(self).inv(),
            -200_000 <= out <= 200_000,
    {
        let al = alpha_low(self.high_mhz, sample_rate_mhz);
        let ah = alpha_high(self.low_mhz, sample_rate_mhz);
        let y1n = lp_step_exec(al, x, self.y1);
        let y2n = lp_step_exec(ah, y1n, self.y2);
        self.y1 = y1n;
        self.y2 = y2n;
        y1n - y2n
    }
}

/// Executable `alpha_low_spec`, always within one milli unit.
fn alpha_low(high_mhz: u64, sample_rate_mhz: u64) -> (a: i64)
    requires
        high_mhz <= 100_000_000,
        1 <= sample_rate_mhz <= 1_000_000_000_000,
    ensures
        a == alpha_low_spec(high_mhz as int, sample_rate_mhz as int),
        0 <= a <= 1000,
{
    let t: u64 = high_mhz * 6_283_185 / 1_000_000;
    assert(1000int * t / (t + sample_rate_mhz) <= 1000) by (nonlinear_arith)
        requires t >= 0u64, sample_rate_mhz >= 1u64;
    let a: u64 = 1000 * t / (t + sample_rate_mhz);
    a as i64
}

/// Executable `alpha_high_spec`, always within one milli unit.
fn alpha_high(low_mhz: u64, sample_rate_mhz: u64) -> (a: i64)
    requires
        low_mhz <= 100_000_000,
        1 <= sample_rate_mhz <= 1_000_000_000_000,
    ensures
        a == alpha_high_spec(low_mhz as int, sample_rate_mhz as int),
        0 <= a <= 1000,
{
    let t: u64 = low_mhz * 6_283_185 / 1_000_000;
    assert(1000int * sample_rate_mhz / (sample_rate_mhz + t) <= 1000) by (nonlinear_arith)
        requires t >= 0u64, sample_rate_mhz >= 1u64;
    let a: u64 = 1000 * sample_rate_mhz / (sample_rate_mhz + t);
    a as i64
}

/// Executable `lp_step`: the result stays within the larger of the two
/// operands' bounds, here fixed at two full-scale units.
fn lp_step_exec(alpha: i64, x: i64, y: i64) -> (r: i64)
    requires
        0 <= alpha <= 1000,
        -200_000 <= x <= 200_000,
        -200_000 <= y <= 200_000,
    ensures
        r == lp_step(alpha as int, x as int, y as int),
        -200_000 <= r <= 200_000,
        -100_000 <= x <= 100_000 && -100_000 <= y <= 100_000 ==> -100_000 <= r <= 100_000,
{
    assert(-200_000_000 <= alpha * x + (1000 - alpha) * y <= 200_000_000) by (nonlinear_arith)
        requires
            0i64 <= alpha <= 1000i64,
            -200_000i64 <= x <= 200_000i64,
            -200_000i64 <= y <= 200_000i64,
    ;
    assert(-200_000_000 <= alpha * x <= 200_000_000) by (nonlinear_arith)
        requires 0i64 <= alpha <= 1000i64, -200_000i64 <= x <= 200_000i64;
    assert(-200_000_000 <= (1000 - alpha) * y <= 200_000_000) by (nonlinear_arith)
        requires 0i64 <= alpha <= 1000i64, -200_000i64 <= y <= 200_000i64;
    let n: i64 = alpha * x + (1000 - alpha) * y;
    proof {
        if -100_000 <= x <= 100_000 && -100_000 <= y <= 100_000 {
            assert(-100_000_000 <= alpha * x + (1000 - alpha) * y <= 100_000_000)
                by (nonlinear_arith)
                requires
                    0i64 <= alpha <= 1000i64,
                    -100_000i64 <= x <= 100_000i64,
                    -100_000i64 <= y <= 100_000i64,
            ;
            crate::fixed::lemma_tdiv_bound(n as int, 1000, 100_000);
        }
        crate::fixed::lemma_tdiv_bound(n as int, 1000, 200_000);
    }
    crate::fixed::div_trunc(n, 1000)
}

/// The run of one band-pass filter over the first `n` samples: final state
/// of both stages and the band-passed output sequence.
pub open spec fn filter_run(
    al: int,
    ah: int,
    s: Seq<i64>,
    n: int,
    y1_0: int,
    y2_0: int,
) -> (int, int, Seq<i64>)
    decreases n,
{
    if n <= 0 {
        (y1_0, y2_0, Seq::empty())
    } else {
        let prev = filter_run(al, ah, s, n - 1, y1_0, y2_0);
        let y1n = lp_step(al, s[n - 1] as int, prev.0);
        let y2n = lp_step(ah, y1n, prev.1);
        (y1n, y2n, prev.2.push((y1n - y2n) as i64))
    }
}

/// Band-pass the whole sample sequence through a fresh filter with the
/// given edges: a low-pass at the upper edge cascaded with a high-pass at
/// the lower edge, starting from zero state.
pub fn apply_bandpass(samples: &Vec<i64>, low_mhz: u64, high_mhz: u64, sample_rate_mhz: u64) -> (out:
    Vec<i64>)
    requires
        forall|i: int|
            0 <= i < samples@.len() ==> -100_000 <= (#[trigger] samples@[i]) <= 100_000,
        low_mhz <= 100_000_000,
        high_mhz <= 100_000_000,
        1 <= sample_rate_mhz <= 1_000_000_000_000,
    ensures
        out@ == filter_run(
            alpha_low_spec(high_mhz as int, sample_rate_mhz as int),
            alpha_high_spec(low_mhz as int, sample_rate_mhz as int),
            samples@,
            samples@.len() as int,
            0,
            0,
        ).2,
        out@.len() == samples@.len(),
        forall|i: int| 0 <= i < out@.len() ==> -200_000 <= (#[trigger] out@[i]) <= 200_000,
{
    let al = alpha_low(high_mhz, sample_rate_mhz);
    let ah = alpha_high(low_mhz, sample_rate_mhz);
    let mut y1: i64 = 0;
    let mut y2: i64 = 0;
    let mut out: Vec<i64> = Vec::new();
    let mut n: usize = 0;
    let len = samples.len();
    while n < len
        invariant
            n <= len,
            len == samples@.len(),
            forall|i: int|
                0 <= i < samples@.len() ==> -100_000 <= (#[trigger] samples@[i]) <= 100_000,
            0 <= al <= 1000,
            0 <= ah <= 1000,
            al == alpha_low_spec(high_mhz as int, sample_rate_mhz as int),
            ah == alpha_high_spec(low_mhz as int, sample_rate_mhz as int),
            -100_000 <= y1 <= 100_000,
            -100_000 <= y2 <= 100_000,
            y1 == filter_run(al as int, ah as int, samples@, n as int, 0, 0).0,
            y2 == filter_run(al as int, ah as int, samples@, n as int, 0, 0).1,
            out@ == filter_run(al as int, ah as int, samples@, n as int, 0, 0).2,
            out@.len() == n,
            forall|i: int| 0 <= i < out@.len() ==> -200_000 <= (#[trigger] out@[i]) <= 200_000,
        decreases len - n,
    {
        let x = samples[n];
        let y1n = lp_step_exec(al, x, y1);
        let y2n = lp_step_exec(ah, y1n, y2);
        out.push(y1n - y2n);
        y1 = y1n;
        y2 = y2n;
        n = n + 1;
    }
    out
}

/// Raised-cosine window coefficient at index `i`, milli units:
/// `0.5 * (1 - cos(2*pi*i / (BUFFER_SZ - 1)))`.
pub open spec fn window_coeff(i: int) -> int {
    (1000 - crate::trig::cos_turns_spec(i, 4095)) / 2
}

/// The sample sequence with the window applied, term by term. The imaginary
/// parts of the windowed frame are all zero, so the transform consumes the
/// real sequence alone.
pub open spec fn windowed_seq(s: Seq<i64>) -> Seq<i64> {
    Seq::new(s.len(), |i: int| tdiv(s[i] * window_coeff(i), 1000) as i64)
}

/// Apply the raised-cosine window to one frame of samples.
pub fn apply_window(audio_buffer: &Vec<i64>) -> (out: Vec<i64>)
    requires
        forall|i: int|
            0 <= i < audio_buffer@.len() ==> -100_000 <= (#[trigger] audio_buffer@[i])
                <= 100_000,
    ensures
        out@ == windowed_seq(audio_buffer@),
        out@.len() == audio_buffer@.len(),
        forall|i: int| 0 <= i < out@.len() ==> -100_000 <= (#[trigger] out@[i]) <= 100_000,
{
    let mut out: Vec<i64> = Vec::new();
    let mut n: usize = 0;
    let len = audio_buffer.len();
    while n < len
        invariant
            n <= len,
            len == audio_buffer@.len(),
            forall|i: int|
                0 <= i < audio_buffer@.len() ==> -100_000 <= (#[trigger] audio_buffer@[i])
                    <= 100_000,
            out@.len() == n,
            forall|i: int|
                0 <= i < n ==> (#[trigger] out@[i]) == tdiv(
                    audio_buffer@[i] * window_coeff(i),
                    1000,
                ) as i64,
            forall|i: int| 0 <= i < n ==> -100_000 <= (#[trigger] out@[i]) <= 100_000,
        decreases len - n,
    {
        let c = crate::trig::cos_turns(n as u64, 4095);
        let w: i64 = (1000 - c) / 2;
        let x = audio_buffer[n];
        assert(-100_000_000 <= x * w <= 100_000_000) by (nonlinear_arith)
            requires -100_000i64 <= x <= 100_000i64, 0i64 <= w <= 1000i64;
        let v = crate::fixed::div_trunc(x * w, 1000);
        proof {
            crate::fixed::lemma_tdiv_bound((x * w) as int, 1000, 100_000);
        }
        out.push(v);
        n = n + 1;
    }
    proof {
        assert(out@ =~= windowed_seq(audio_buffer@));
    }
    out
}

/// One in-place smoothing pass from index `i` on: each interior element in
/// turn becomes half itself plus a quarter of each neighbour, the left
/// neighbour already smoothed. The first and last element are untouched.
pub open spec fn smooth_rec(s: Seq<i64>, i: int) -> Seq<i64>
    decreases s.len() - i,
{
    if i < 1 || i >= s.len() - 1 {
        s
    } else {
        let v = tdiv(2 * s[i] + s[i - 1] + s[i + 1], 4);
        smooth_rec(s.update(i, v as i64), i + 1)
    }
}

/// What one smoothing pass over the whole sequence produces.
pub open spec fn smooth_seq(s: Seq<i64>) -> Seq<i64> {
    smooth_rec(s, 1)
}

/// Smoothing does not change the sequence's length.
pub proof fn lemma_smooth_rec_len(s: Seq<i64>, i: int)
    ensures
        smooth_rec(s, i).len() == s.len(),
    decreases s.len() - i,
{
    if !(i < 1 || i >= s.len() - 1) {
        let v = tdiv(2 * s[i] + s[i - 1] + s[i + 1], 4);
        lemma_smooth_rec_len(s.update(i, v as i64), i + 1);
    }
}

/// Smoothing keeps values within `[0, hi]` when they started there: each
/// new value is a weighted average of three old ones.
pub proof fn lemma_smooth_rec_range(s: Seq<i64>, i: int, hi: int)
    requires
        0 <= hi <= 1_000_000_000,
        forall|j: int| 0 <= j < s.len() ==> 0 <= (#[trigger] s[j]) <= hi,
    ensures
        forall|j: int|
            0 <= j < smooth_rec(s, i).len() ==> 0 <= (#[trigger] smooth_rec(s, i)[j]) <= hi,
    decreases s.len() - i,
{
    if !(i < 1 || i >= s.len() - 1) {
        let n = 2 * s[i] + s[i - 1] + s[i + 1];
        let v = tdiv(n, 4);
        crate::fixed::lemma_tdiv_nonneg(n, 4);
        crate::fixed::lemma_tdiv_bound(n, 4, hi);
        assert(v as i64 == v);
        lemma_smooth_rec_range(s.update(i, v as i64), i + 1, hi);
        assert(smooth_rec(s, i) == smooth_rec(s.update(i, v as i64), i + 1));
    }
}

/// Smoothing a constant sequence is the identity: a constant sequence is a
/// fixed point of the three-point average.
pub proof fn lemma_smooth_rec_constant(s: Seq<i64>, v: i64, i: int)
    requires
        forall|j: int| 0 <= j < s.len() ==> (#[trigger] s[j]) == v,
    ensures
        smooth_rec(s, i) == s,
    decreases s.len() - i,
{
    if !(i < 1 || i >= s.len() - 1) {
        assert(tdiv(2 * s[i] + s[i - 1] + s[i + 1], 4) == v) by {
            assert(2 * (v as int) + v + v == 4 * v);
            if v >= 0 {
                assert(4 * (v as int) / 4 == v) by (nonlinear_arith);
            } else {
                assert((-(4 * (v as int))) / 4 == -v) by (nonlinear_arith);
            }
        }
        assert(s.update(i, v) =~= s);
        lemma_smooth_rec_constant(s, v, i + 1);
    }
}

/// A sequence of one repeated value passes through smoothing unchanged.
/// The converse does not hold: any arithmetic progression is also left
/// unchanged, so being constant is sufficient but not necessary.
pub proof fn lemma_smooth_constant_fixed_point(s: Seq<i64>, v: i64)
    requires
        forall|j: int| 0 <= j < s.len() ==> (#[trigger] s[j]) == v,
    ensures
        smooth_seq(s) == s,
{
    lemma_smooth_rec_constant(s, v, 1);
}

/// Smooth the spectrum in place with a three-point weighted moving
/// average; the two boundary elements are left as they are.
pub fn smooth_spectrum(spectrum: &mut Vec<i64>)
    requires
        old(spectrum)@.len() >= 1,
        forall|j: int|
            0 <= j < old(spectrum)@.len() ==> -1_000_000_000 <= (#[trigger] old(
                spectrum,
            )@[j]) <= 1_000_000_000,
    ensures
        final(spectrum)@ == smooth_seq(old(spectrum)@),
        final(spectrum)@.len() == old(spectrum)@.len(),
{
    let len = spectrum.len();
    let mut i: usize = 1;
    while i + 1 < len
        invariant
            1 <= i <= len,
            len >= 2 ==> i <= len - 1,
            len == spectrum@.len(),
            smooth_rec(spectrum@, i as int) == smooth_rec(old(spectrum)@, 1),
            forall|j: int|
                0 <= j < spectrum@.len() ==> -1_000_000_000 <= (#[trigger] spectrum@[j])
                    <= 1_000_000_000,
        decreases len - i,
    {
        let a = spectrum[i];
        let l = spectrum[i - 1];
        let r = spectrum[i + 1];
        let n: i64 = 2 * a + l + r;
        let v = crate::fixed::div_trunc(n, 4);
        proof {
            crate::fixed::lemma_tdiv_bound(n as int, 4, 1_000_000_000);
        }
        spectrum.set(i, v);
        i = i + 1;
    }
    proof {
        assert(smooth_rec(spectrum@, i as int) == spectrum@);
    }
}

/// Magnitude of an integer.
pub open spec fn abs_i(v: int) -> int {
    if v < 0 {
        -v
    } else {
        v
    }
}

/// Sum of the squares of the first `n` elements.
pub open spec fn sum_squares(s: Seq<i64>, n: int) -> int
    decreases n,
{
    if n <= 0 {
        0
    } else {
        sum_squares(s, n - 1) + s[n - 1] * s[n - 1]
    }
}

/// Largest magnitude among the first `n` elements, zero for none.
pub open spec fn peak_abs(s: Seq<i64>, n: int) -> int
    decreases n,
{
    if n <= 0 {
        0
    } else {
        let p = peak_abs(s, n - 1);
        let a = abs_i(s[n - 1] as int);
        if a > p {
            a
        } else {
            p
        }
    }
}

/// Sum of squares of a bounded sequence, executable form.
fn sum_squares_exec(s: &Vec<i64>) -> (sum: u64)
    requires
        s@.len() <= 1_000_000,
        forall|i: int| 0 <= i < s@.len() ==> -200_000 <= (#[trigger] s@[i]) <= 200_000,
    ensures
        sum == sum_squares(s@, s@.len() as int),
        sum <= s@.len() * 40_000_000_000,
{
    let mut sum: u64 = 0;
    let mut n: usize = 0;
    let len = s.len();
    while n < len
        invariant
            n <= len,
            len == s@.len(),
            len <= 1_000_000,
            forall|i: int| 0 <= i < s@.len() ==> -200_000 <= (#[trigger] s@[i]) <= 200_000,
            sum == sum_squares(s@, n as int),
            sum <= n * 40_000_000_000,
        decreases len - n,
    {
        let x = s[n];
        assert(0 <= x * x <= 40_000_000_000) by (nonlinear_arith)
            requires -200_000i64 <= x <= 200_000i64;
        let sq: i64 = x * x;
        sum = sum + (sq as u64);
        n = n + 1;
    }
    sum
}

/// Largest magnitude of a bounded sequence, executable form.
fn peak_abs_exec(s: &Vec<i64>) -> (p: i64)
    requires
        forall|i: int| 0 <= i < s@.len() ==> -200_000 <= (#[trigger] s@[i]) <= 200_000,
    ensures
        p == peak_abs(s@, s@.len() as int),
        0 <= p <= 200_000,
{
    let mut p: i64 = 0;
    let mut n: usize = 0;
    let len = s.len();
    while n < len
        invariant
            n <= len,
            len == s@.len(),
            forall|i: int| 0 <= i < s@.len() ==> -200_000 <= (#[trigger] s@[i]) <= 200_000,
            p == peak_abs(s@, n as int),
            0 <= p <= 200_000,
        decreases len - n,
    {
        let x = s[n];
        let a: i64 = if x < 0 {
            -x
        } else {
            x
        };
        if a > p {
            p = a;
        }
        n = n + 1;
    }
    p
}

/// Aggregated level of a filtered sequence: `0.7 * RMS + 0.3 * peak`,
/// where the RMS is the square root of the mean square.
pub open spec fn level_spec(outs: Seq<i64>) -> int {
    let len = outs.len() as int;
    let rms = sqrt_of(sum_squares(outs, len) / len);
    let pk = peak_abs(outs, len);
    tdiv(7 * rms + 3 * pk, 10)
}

/// Executable `level_spec` over a non-empty bounded sequence.
fn level_of(outs: &Vec<i64>) -> (lvl: i64)
    requires
        1 <= outs@.len() <= 1_000_000,
        forall|i: int| 0 <= i < outs@.len() ==> -200_000 <= (#[trigger] outs@[i]) <= 200_000,
    ensures
        lvl == level_spec(outs@),
        0 <= lvl <= 200_000,
{
    let sum = sum_squares_exec(outs);
    let len = outs.len();
    let mean: u64 = sum / (len as u64);
    assert(mean <= 40_000_000_000) by (nonlinear_arith)
        requires
            sum <= len * 40_000_000_000,
            len >= 1usize,
            mean == sum / (len as u64),
    ;
    let rms = crate::fixed::isqrt(mean);
    assert(rms <= 200_000) by (nonlinear_arith)
        requires (rms as int) * (rms as int) <= 40_000_000_000;
    let pk = peak_abs_exec(outs);
    let n: i64 = 7 * (rms as i64) + 3 * pk;
    proof {
        crate::fixed::lemma_tdiv_nonneg(n as int, 10);
        crate::fixed::lemma_tdiv_bound(n as int, 10, 200_000);
    }
    crate::fixed::div_trunc(n, 10)
}

/// Dynamic-range estimate of a raw frame: the larger of the RMS and seven
/// tenths of the peak magnitude, an informal automatic gain term.
pub open spec fn dyn_range_spec(s: Seq<i64>) -> int {
    let len = s.len() as int;
    let rms = sqrt_of(sum_squares(s, len) / len);
    let pk = peak_abs(s, len);
    let p7 = 7 * pk / 10;
    if rms >= p7 {
        rms
    } else {
        p7
    }
}

/// Executable `dyn_range_spec` over a non-empty frame of full-scale
/// bounded samples.
fn dynamic_range(samples: &Vec<i64>) -> (d: u64)
    requires
        1 <= samples@.len() <= 1_000_000,
        forall|i: int| 0 <= i < samples@.len() ==> -100_000 <= (#[trigger] samples@[i]) <= 100_000,
    ensures
        d == dyn_range_spec(samples@),
        d <= 100_000,
{
    let sum = sum_squares_exec(samples);
    let len = samples.len();
    proof {
        lemma_sum_squares_tight(samples@, len as int);
    }
    let mean: u64 = sum / (len as u64);
    assert(mean <= 10_000_000_000) by (nonlinear_arith)
        requires
            sum <= len * 10_000_000_000,
            len >= 1usize,
            mean == sum / (len as u64),
    ;
    let rms = crate::fixed::isqrt(mean);
    assert(rms <= 100_000) by (nonlinear_arith)
        requires (rms as int) * (rms as int) <= 10_000_000_000;
    let pk = peak_abs_exec(samples);
    proof {
        lemma_peak_abs_tight(samples@, len as int);
    }
    let p7: i64 = 7 * pk / 10;
    if rms as i64 >= p7 {
        rms
    } else {
        p7 as u64
    }
}

/// A tighter peak bound for full-scale samples.
proof fn lemma_peak_abs_tight(s: Seq<i64>, n: int)
    requires
        n <= s.len(),
        forall|i: int| 0 <= i < s.len() ==> -100_000 <= (#[trigger] s[i]) <= 100_000,
    ensures
        0 <= peak_abs(s, n) <= 100_000,
    decreases n,
{
    if n > 0 {
        lemma_peak_abs_tight(s, n - 1);
    }
}

/// A tighter square-sum bound for full-scale samples.
proof fn lemma_sum_squares_tight(s: Seq<i64>, n: int)
    requires
        n <= s.len(),
        forall|i: int| 0 <= i < s.len() ==> -100_000 <= (#[trigger] s[i]) <= 100_000,
    ensures
        0 <= sum_squares(s, n) <= (if n >= 0 { n } else { 0 }) * 10_000_000_000,
    decreases n,
{
    if n > 0 {
        lemma_sum_squares_tight(s, n - 1);
        assert(0 <= s[n - 1] * s[n - 1] <= 10_000_000_000) by (nonlinear_arith)
            requires -100_000i64 <= s[n - 1] <= 100_000i64;
    }
}

/// Level of one band for a frame of samples, run through the band's filter
/// from its current state.
pub open spec fn band_level_spec(f: BandpassFilter, sr: int, s: Seq<i64>) -> int {
    let al = alpha_low_spec(f.high_mhz as int, sr);
    let ah = alpha_high_spec(f.low_mhz as int, sr);
    level_spec(filter_run(al, ah, s, s.len() as int, f.y1 as int, f.y2 as int).2)
}

/// The filter state left behind by that run: low-pass stage, then
/// high-pass stage.
pub open spec fn band_state_spec(f: BandpassFilter, sr: int, s: Seq<i64>) -> (int, int) {
    let al = alpha_low_spec(f.high_mhz as int, sr);
    let ah = alpha_high_spec(f.low_mhz as int, sr);
    let run = filter_run(al, ah, s, s.len() as int, f.y1 as int, f.y2 as int);
    (run.0, run.1)
}

/// The spectrum analyzer: the transform's cosine table (the reusable part
/// of the transform plan), the four-band filter bank, a resolution hint and
/// the configured sample rate. The filter bank runs at that rate; the
/// transform path is calibrated to the nominal rate of `util`.
pub struct SpectrumAnalyzer {
    /// The four fixed perceptual bands, in rising order of frequency.
    pub filters: Vec<BandpassFilter>,
    /// Cosine table of the forward transform, built once at construction.
    pub cos_table: Vec<i64>,
    /// Display resolution hint; does not change the computation.
    pub resolution: Resolution,
    /// Configured sample rate, milli-hertz.
    pub sample_rate_mhz: u64,
}

impl SpectrumAnalyzer {
    /// Well-formedness: four well-formed filters, a correct cosine table
    /// and a positive sample rate within the scaling arithmetic's range.
    pub open spec fn wf(self) -> bool {
        &&& self.filters@.len() == 4
        &&& forall|b: int| 0 <= b < 4 ==> (#[trigger] self.filters@[b]).inv()
        &&& crate::transform::table_ok(self.cos_table@)
        &&& 1 <= self.sample_rate_mhz <= 1_000_000_000_000
    }

    /// A new analyzer for the given sample rate, with the four fixed bands
    /// at settled state and the transform table built.
    pub fn new(sample_rate_mhz: u64) -> (a: Self)
        requires
            1 <= sample_rate_mhz <= 1_000_000_000_000,
        ensures
            a.wf(),
            a.sample_rate_mhz == sample_rate_mhz,
            a.resolution is High,
            a.filters@.len() == 4,
            a.filters@[0].low_mhz == 0 && a.filters@[0].high_mhz == 80_000,
            a.filters@[1].low_mhz == 80_000 && a.filters@[1].high_mhz == 1_000_000,
            a.filters@[2].low_mhz == 1_000_000 && a.filters@[2].high_mhz == 6_000_000,
            a.filters@[3].low_mhz == 6_000_000 && a.filters@[3].high_mhz == 20_000_000,
            forall|b: int|
                0 <= b < 4 ==> (#[trigger] a.filters@[b]).y1 == 0 && a.filters@[b].y2 == 0,
    {
        let mut filters: Vec<BandpassFilter> = Vec::new();
        filters.push(BandpassFilter::new(0, 80_000));
        filters.push(BandpassFilter::new(80_000, 1_000_000));
        filters.push(BandpassFilter::new(1_000_000, 6_000_000));
        filters.push(BandpassFilter::new(6_000_000, 20_000_000));
        let cos_table = crate::transform::build_cos_table();
        SpectrumAnalyzer { filters, cos_table, resolution: Resolution::High, sample_rate_mhz }
    }

    /// Run the frame through all four band filters, advancing their
    /// persistent state, and aggregate one level per band. Exactly four
    /// levels come back for any non-empty input; an empty input is
    /// rejected, since its RMS would divide by zero.
    pub fn compute_band_levels(&mut self, samples: &Vec<i64>) -> (r: Result<
        Vec<i64>,
        SpectrumError,
    >)
        requires
            old(self).wf(),
            samples@.len() <= 1_000_000,
            forall|i: int|
                0 <= i < samples@.len() ==> -100_000 <= (#[trigger] samples@[i]) <= 100_000,
        ensures
            final(self).wf(),
            final(self).sample_rate_mhz == old(self).sample_rate_mhz,
            final(self).cos_table == old(self).cos_table,
            final(self).resolution == old(self).resolution,
            r is Err <==> samples@.len() == 0,
            samples@.len() == 0 ==> r == Result::<Vec<i64>, SpectrumError>::Err(
                SpectrumError::EmptyInput,
            ) && *final(self) == *old(self),
            samples@.len() >= 1 ==> (r matches Ok(levels) && levels@.len() == 4 && (forall|b: int|
                0 <= b < 4 ==> (#[trigger] levels@[b]) == band_level_spec(
                    old(self).filters@[b],
                    old(self).sample_rate_mhz as int,
                    samples@,
                )) && (forall|b: int|
                0 <= b < 4 ==> (#[trigger] final(self).filters@[b]).low_mhz == old(
                    self,
                ).filters@[b].low_mhz && final(self).filters@[b].high_mhz == old(
                    self,
                ).filters@[b].high_mhz && final(self).filters@[b].y1 == band_state_spec(
                    old(self).filters@[b],
                    old(self).sample_rate_mhz as int,
                    samples@,
                ).0 && final(self).filters@[b].y2 == band_state_spec(
                    old(self).filters@[b],
                    old(self).sample_rate_mhz as int,
                    samples@,
                ).1)),
    {
        if samples.len() == 0 {
            return Err(SpectrumError::EmptyInput);
        }
        let len = samples.len();
        let mut levels: Vec<i64> = Vec::new();
        let mut b: usize = 0;
        while b < 4
            invariant
                b <= 4,
                len == samples@.len(),
                1 <= len <= 1_000_000,
                forall|i: int|
                    0 <= i < samples@.len() ==> -100_000 <= (#[trigger] samples@[i]) <= 100_000,
                self.filters@.len() == 4,
                self.cos_table == old(self).cos_table,
                self.resolution == old(self).resolution,
                self.sample_rate_mhz == old(self).sample_rate_mhz,
                old(self).wf(),
                forall|bb: int| 0 <= bb < 4 ==> (#[trigger] self.filters@[bb]).inv(),
                forall|bb: int|
                    b <= bb < 4 ==> (#[trigger] self.filters@[bb]) == old(self).filters@[bb],
                levels@.len() == b,
                forall|bb: int|
                    0 <= bb < b ==> (#[trigger] levels@[bb]) == band_level_spec(
                        old(self).filters@[bb],
                        old(self).sample_rate_mhz as int,
                        samples@,
                    ),
                forall|bb: int|
                    0 <= bb < b ==> (#[trigger] self.filters@[bb]).low_mhz == old(
                        self,
                    ).filters@[bb].low_mhz && self.filters@[bb].high_mhz == old(
                        self,
                    ).filters@[bb].high_mhz && self.filters@[bb].y1 == band_state_spec(
                        old(self).filters@[bb],
                        old(self).sample_rate_mhz as int,
                        samples@,
                    ).0 && self.filters@[bb].y2 == band_state_spec(
                        old(self).filters@[bb],
                        old(self).sample_rate_mhz as int,
                        samples@,
                    ).1,
            decreases 4 - b,
        {
            let ghost f0 = self.filters@[b as int];
            let ghost al = alpha_low_spec(f0.high_mhz as int, self.sample_rate_mhz as int);
            let ghost ah = alpha_high_spec(f0.low_mhz as int, self.sample_rate_mhz as int);
            let mut f = self.filters[b];
            let mut outs: Vec<i64> = Vec::new();
            let mut n: usize = 0;
            while n < len
                invariant
                    n <= len,
                    len == samples@.len(),
                    1 <= len <= 1_000_000,
                    forall|i: int|
                        0 <= i < samples@.len() ==> -100_000 <= (#[trigger] samples@[i])
                            <= 100_000,
                    1 <= self.sample_rate_mhz <= 1_000_000_000_000,
                    f.inv(),
                    f.low_mhz == f0.low_mhz,
                    f.high_mhz == f0.high_mhz,
                    al == alpha_low_spec(f0.high_mhz as int, self.sample_rate_mhz as int),
                    ah == alpha_high_spec(f0.low_mhz as int, self.sample_rate_mhz as int),
                    f.y1 == filter_run(al, ah, samples@, n as int, f0.y1 as int, f0.y2 as int).0,
                    f.y2 == filter_run(al, ah, samples@, n as int, f0.y1 as int, f0.y2 as int).1,
                    outs@ == filter_run(al, ah, samples@, n as int, f0.y1 as int, f0.y2 as int).2,
                    outs@.len() == n,
                    forall|i: int|
                        0 <= i < outs@.len() ==> -200_000 <= (#[trigger] outs@[i]) <= 200_000,
                decreases len - n,
            {
                let out = f.process(samples[n], self.sample_rate_mhz);
                outs.push(out);
                n = n + 1;
            }
            let lvl = level_of(&outs);
            levels.push(lvl);
            self.filters.set(b, f);
            b = b + 1;
        }
        Ok(levels)
    }
}

/// The spectrum's index order is a rising frequency order: a later bin
/// always maps to a strictly higher frequency.
pub proof fn lemma_freq_monotone(i: int, j: int)
    requires
        0 <= i < j,
    ensures
        freq_spec(i) < freq_spec(j),
{
    assert(j * 44_100_000 >= i * 44_100_000 + 44_100_000) by (nonlinear_arith)
        requires i < j;
    vstd::arithmetic::div_mod::lemma_div_is_ordered(
        i * 44_100_000 + 44_100_000,
        j * 44_100_000,
        2048,
    );
    vstd::arithmetic::div_mod::lemma_hoist_over_denominator(i * 44_100_000 + 416, 21533, 2048);
    assert(i * 44_100_000 + 416 + 21533 * 2048 == i * 44_100_000 + 44_100_000);
    vstd::arithmetic::div_mod::lemma_div_is_ordered(
        i * 44_100_000,
        i * 44_100_000 + 416,
        2048,
    );
}

/// The Nyquist cut falls exactly at the half-way bin: a bin's frequency
/// stays at or below half the nominal rate precisely for the first 1024
/// bins.
pub proof fn lemma_nyquist_cut(k: int)
    requires
        0 <= k < 2048,
    ensures
        (freq_spec(k) <= 22_050_000) <==> (k < 1024),
{
    if k < 1024 {
        assert(k * 44_100_000 <= 45_114_300_000);
        vstd::arithmetic::div_mod::lemma_div_is_ordered(k * 44_100_000, 45_114_300_000, 2048);
        assert(45_114_300_000int / 2048 == 22_028_466);
    } else {
        assert(k * 44_100_000 >= 45_158_400_000);
        vstd::arithmetic::div_mod::lemma_div_is_ordered(45_158_400_000, k * 44_100_000, 2048);
        assert(45_158_400_000int / 2048 == 22_050_000);
    }
}

/// The cosine table the transform is defined over.
pub open spec fn cos_table_seq() -> Seq<i64> {
    Seq::new(4096, |j: int| crate::trig::cos_turns_spec(j, 4096) as i64)
}

/// Value of one emitted spectrum bin before padding and smoothing: the
/// bin's magnitude, scaled by the dynamic range, taken to decibels,
/// normalized, clamped into `[0, 1.2]` and then ERB-weighted.
pub open spec fn bin_out_spec(xw: Seq<i64>, t: Seq<i64>, dyn_range: int, k: int) -> int {
    let re = crate::transform::bin_re_spec(xw, t, k);
    let im = crate::transform::bin_im_spec(xw, t, k);
    let mag_raw = sqrt_of(re * re + im * im);
    let magnitude = mag_raw * dyn_range / 2_048_000;
    let db = crate::logs::decibels_spec(magnitude);
    let norm = crate::fixed::clamp_spec(crate::util::normalized_db(db), 0, 1200);
    tdiv(norm * (1000 + tdiv(crate::logs::erb_spec(freq_spec(k)), 10)), 1000)
}

/// The whole spectrum pipeline: window, transform, per-bin weighting up to
/// the Nyquist cut, zero padding to the full frame length, one smoothing
/// pass.
pub open spec fn spectrum_spec(s: Seq<i64>) -> Seq<i64> {
    let t = cos_table_seq();
    let xw = windowed_seq(s);
    let dyn_range = dyn_range_spec(s);
    let bins = Seq::new(1024, |k: int| bin_out_spec(xw, t, dyn_range, k) as i64);
    let padded = bins + Seq::new(3072, |j: int| 0i64);
    smooth_seq(padded)
}

impl SpectrumAnalyzer {
    /// Convert one frame of samples into the normalized, perceptually
    /// weighted spectrum. A frame of any other length than `BUFFER_SZ` is
    /// rejected; a well-formed frame always yields exactly `BUFFER_SZ`
    /// values, each within `[0, 6.336]` — the clamp bounds the value at
    /// 1.2 before the ERB weighting, which may push it further up.
    pub fn compute_spectrum(&mut self, audio_buffer: &Vec<i64>) -> (r: Result<
        Vec<i64>,
        SpectrumError,
    >)
        requires
            old(self).wf(),
            forall|i: int|
                0 <= i < audio_buffer@.len() ==> -100_000 <= (#[trigger] audio_buffer@[i])
                    <= 100_000,
        ensures
            *final(self) == *old(self),
            r is Ok <==> audio_buffer@.len() == 4096,
            audio_buffer@.len() != 4096 ==> r == Result::<Vec<i64>, SpectrumError>::Err(
                SpectrumError::WrongLength,
            ),
            r matches Ok(sp) ==> sp@ == spectrum_spec(audio_buffer@) && sp@.len() == 4096 && (
            forall|i: int| 0 <= i < sp@.len() ==> 0 <= (#[trigger] sp@[i]) <= 6336),
    {
        if audio_buffer.len() != crate::util::BUFFER_SZ {
            return Err(SpectrumError::WrongLength);
        }
        proof {
            assert(self.cos_table@ =~= cos_table_seq());
        }
        let xw = apply_window(audio_buffer);
        let dyn_range = dynamic_range(audio_buffer);
        let mut spectrum: Vec<i64> = Vec::new();
        let mut k: usize = 0;
        while k < crate::util::BUFFER_SZ_HALF
            invariant
                k <= 2048,
                audio_buffer@.len() == 4096,
                xw@ == windowed_seq(audio_buffer@),
                xw@.len() == 4096,
                forall|i: int| 0 <= i < xw@.len() ==> -100_000 <= (#[trigger] xw@[i]) <= 100_000,
                crate::transform::table_ok(self.cos_table@),
                self.cos_table@ == cos_table_seq(),
                dyn_range == dyn_range_spec(audio_buffer@),
                dyn_range <= 100_000,
                spectrum@.len() == (if k < 1024 {
                    k as int
                } else {
                    1024
                }),
                forall|i: int|
                    0 <= i < spectrum@.len() ==> (#[trigger] spectrum@[i]) == bin_out_spec(
                        windowed_seq(audio_buffer@),
                        cos_table_seq(),
                        dyn_range_spec(audio_buffer@),
                        i,
                    ) as i64,
                forall|i: int|
                    0 <= i < spectrum@.len() ==> 0 <= (#[trigger] spectrum@[i]) <= 6336,
            decreases 2048 - k,
        {
            let freq = crate::util::get_freq(k);
            proof {
                lemma_nyquist_cut(k as int);
            }
            if freq <= crate::util::MAX_FREQ_MILLIHZ {
                let (re, im) = crate::transform::dft_bin(&xw, &self.cos_table, k);
                assert(0 <= re * re <= 167_772_160_000_000_000) by (nonlinear_arith)
                    requires -409_600_000i64 <= re <= 409_600_000i64;
                assert(0 <= im * im <= 167_772_160_000_000_000) by (nonlinear_arith)
                    requires -409_600_000i64 <= im <= 409_600_000i64;
                let mag_sq: i64 = re * re + im * im;
                let mag_raw: u64 = crate::fixed::isqrt(mag_sq as u64);
                assert(mag_raw <= 579_261_875) by (nonlinear_arith)
                    requires (mag_raw as int) * (mag_raw as int) <= 335_544_320_000_000_000;
                assert(mag_raw * dyn_range <= 57_926_187_500_000) by (nonlinear_arith)
                    requires mag_raw <= 579_261_875u64, dyn_range <= 100_000u64;
                let magnitude: u64 = mag_raw * dyn_range / 2_048_000;
                proof {
                    vstd::arithmetic::div_mod::lemma_div_is_ordered(
                        (mag_raw * dyn_range) as int,
                        57_926_187_500_000,
                        2_048_000,
                    );
                    assert(57_926_187_500_000int / 2_048_000 == 28_284_271);
                }
                let db = crate::logs::decibels_milli(magnitude);
                let norm0 = crate::util::get_normalized_db(db);
                let norm = crate::fixed::clamp_i64(norm0, 0, 1200);
                let erb = crate::logs::erb_weight(freq);
                let mult: i64 = 1000 + crate::fixed::div_trunc(erb, 10);
                proof {
                    crate::fixed::lemma_tdiv_nonneg(erb as int, 10);
                    crate::fixed::lemma_tdiv_bound(erb as int, 10, 4280);
                }
                assert(0 <= norm * mult <= 6_336_000) by (nonlinear_arith)
                    requires 0i64 <= norm <= 1200i64, 1000i64 <= mult <= 5280i64;
                let val = crate::fixed::div_trunc(norm * mult, 1000);
                proof {
                    crate::fixed::lemma_tdiv_nonneg((norm * mult) as int, 1000);
                    crate::fixed::lemma_tdiv_bound((norm * mult) as int, 1000, 6336);
                }
                spectrum.push(val);
            }
            k = k + 1;
        }
        let ghost bins = Seq::new(
            1024,
            |i: int|
                bin_out_spec(
                    windowed_seq(audio_buffer@),
                    cos_table_seq(),
                    dyn_range_spec(audio_buffer@),
                    i,
                ) as i64,
        );
        proof {
            assert(spectrum@ =~= bins);
        }
        while spectrum.len() < crate::util::BUFFER_SZ
            invariant
                1024 <= spectrum@.len() <= 4096,
                spectrum@.subrange(0, 1024) =~= bins,
                forall|i: int| 1024 <= i < spectrum@.len() ==> (#[trigger] spectrum@[i]) == 0,
                forall|i: int|
                    0 <= i < spectrum@.len() ==> 0 <= (#[trigger] spectrum@[i]) <= 6336,
            decreases 4096 - spectrum@.len(),
        {
            spectrum.push(0);
        }
        let ghost padded = bins + Seq::new(3072, |j: int| 0i64);
        proof {
            assert(spectrum@ =~= padded);
        }
        smooth_spectrum(&mut spectrum);
        proof {
            lemma_smooth_rec_len(padded, 1);
            lemma_smooth_rec_range(padded, 1, 6336);
        }
        Ok(spectrum)
    }
}

/// A silent frame yields a silent spectrum: every bin of a frame of zeros
/// is zero even before padding, since the zero magnitude is floored far
/// below the normalization range and clamped away.
pub proof fn lemma_silent_frame(s: Seq<i64>)
    requires
        s.len() == 4096,
        forall|i: int| 0 <= i < s.len() ==> (#[trigger] s[i]) == 0,
    ensures
        spectrum_spec(s).len() == 4096,
        forall|i: int| 0 <= i < spectrum_spec(s).len() ==> (#[trigger] spectrum_spec(s)[i]) == 0,
{
    let t = cos_table_seq();
    let xw = windowed_seq(s);
    assert forall|i: int| 0 <= i < xw.len() implies (#[trigger] xw[i]) == 0 by {
        assert(s[i] * window_coeff(i) == 0) by (nonlinear_arith)
            requires s[i] == 0i64;
    }
    lemma_sum_squares_zero(s, 4096);
    lemma_peak_abs_zero(s, 4096);
    let dyn_range = dyn_range_spec(s);
    crate::fixed::lemma_sqrt_of(0, 0);
    assert(dyn_range == 0);
    assert forall|k: int| 0 <= k < 1024 implies bin_out_spec(xw, t, 0, k) == 0 by {
        crate::transform::lemma_dft_sum_zero(xw, t, k, 4096);
        crate::fixed::lemma_sqrt_of(0, 0);
        let re = crate::transform::bin_re_spec(xw, t, k);
        let im = crate::transform::bin_im_spec(xw, t, k);
        assert(re == 0);
        assert(im == 0);
        assert(re * re + im * im == 0);
        let magnitude = sqrt_of(0) * 0 / 2_048_000;
        assert(magnitude == 0);
        assert(crate::logs::decibels_spec(0) == -200_000);
        assert(crate::util::normalized_db(-200_000) == -1222);
        assert(crate::fixed::clamp_spec(-1222, 0, 1200) == 0);
        let mult = 1000 + tdiv(crate::logs::erb_spec(freq_spec(k)), 10);
        assert(0 * mult == 0) by (nonlinear_arith);
        assert(tdiv(0, 1000) == 0);
    }
    let bins = Seq::new(1024, |k: int| bin_out_spec(xw, t, dyn_range, k) as i64);
    let padded = bins + Seq::new(3072, |j: int| 0i64);
    assert forall|i: int| 0 <= i < padded.len() implies (#[trigger] padded[i]) == 0 by {
    }
    lemma_smooth_constant_fixed_point(padded, 0);
    lemma_smooth_rec_len(padded, 1);
}

/// The square sum of a silent sequence vanishes.
proof fn lemma_sum_squares_zero(s: Seq<i64>, n: int)
    requires
        n <= s.len(),
        forall|i: int| 0 <= i < s.len() ==> (#[trigger] s[i]) == 0,
    ensures
        sum_squares(s, n) == 0,
    decreases n,
{
    if n > 0 {
        lemma_sum_squares_zero(s, n - 1);
    }
}

/// The peak of a silent sequence vanishes.
proof fn lemma_peak_abs_zero(s: Seq<i64>, n: int)
    requires
        n <= s.len(),
        forall|i: int| 0 <= i < s.len() ==> (#[trigger] s[i]) == 0,
    ensures
        peak_abs(s, n) == 0,
    decreases n,
{
    if n > 0 {
        lemma_peak_abs_zero(s, n - 1);
    }
}

} // verus!
