//! Forward spectral transform: a direct discrete Fourier transform on
//! fixed-point samples, driven by a table of cosines at the transform's
//! 4096 roots of unity. The sine factors come from the same table through a
//! quarter-turn shift of the index.

use vstd::prelude::*;
use crate::fixed::tdiv;
use crate::trig::cos_turns_spec;
use crate::util::BUFFER_SZ;

verus! {

/// The transform's cosine table: entry `j` is the cosine of `2*pi*j/4096`
/// in milli units.
pub open spec fn table_ok(t: Seq<i64>) -> bool {
    &&& t.len() == 4096
    &&& forall|j: int| 0 <= j < 4096 ==> (#[trigger] t[j]) == cos_turns_spec(j, 4096)
    &&& forall|j: int| 0 <= j < 4096 ==> -1000 <= (#[trigger] t[j]) <= 1000
}

/// Build the transform's cosine table.
pub fn build_cos_table() -> (t: Vec<i64>)
    ensures
        table_ok(t@),
{
    let mut t: Vec<i64> = Vec::new();
    let mut j: usize = 0;
    while j < BUFFER_SZ
        invariant
            j <= 4096,
            t@.len() == j,
            forall|i: int| 0 <= i < j ==> (#[trigger] t@[i]) == cos_turns_spec(i, 4096),
            forall|i: int| 0 <= i < j ==> -1000 <= (#[trigger] t@[i]) <= 1000,
        decreases 4096 - j,
    {
        let c = crate::trig::cos_turns(j as u64, 4096);
        t.push(c);
        j = j + 1;
    }
    t
}

/// Real part of the transform sum over the first `n` samples: each sample
/// times the cosine of its accumulated angle, in milli units before the
/// final down-scaling.
pub open spec fn dft_sum_re(xw: Seq<i64>, t: Seq<i64>, k: int, n: int) -> int
    decreases n,
{
    if n <= 0 {
        0
    } else {
        dft_sum_re(xw, t, k, n - 1) + xw[n - 1] * t[(n - 1) * k % 4096]
    }
}

/// Imaginary part of the transform sum: the sine factor is the cosine
/// shifted by three quarter turns.
pub open spec fn dft_sum_im(xw: Seq<i64>, t: Seq<i64>, k: int, n: int) -> int
    decreases n,
{
    if n <= 0 {
        0
    } else {
        dft_sum_im(xw, t, k, n - 1) + xw[n - 1] * t[((n - 1) * k % 4096 + 3072) % 4096]
    }
}

/// Real part of transform bin `k`, down-scaled to milli units.
pub open spec fn bin_re_spec(xw: Seq<i64>, t: Seq<i64>, k: int) -> int {
    tdiv(dft_sum_re(xw, t, k, 4096), 1000)
}

/// Imaginary part of transform bin `k`, down-scaled to milli units. The
/// magnitude alone is consumed downstream, so the sign convention of the
/// sine factor does not matter.
pub open spec fn bin_im_spec(xw: Seq<i64>, t: Seq<i64>, k: int) -> int {
    tdiv(dft_sum_im(xw, t, k, 4096), 1000)
}

/// A frame of zero samples transforms to zero: every term of both sums
/// vanishes.
pub proof fn lemma_dft_sum_zero(xw: Seq<i64>, t: Seq<i64>, k: int, n: int)
    requires
        n <= xw.len(),
        forall|i: int| 0 <= i < xw.len() ==> (#[trigger] xw[i]) == 0,
    ensures
        dft_sum_re(xw, t, k, n) == 0,
        dft_sum_im(xw, t, k, n) == 0,
    decreases n,
{
    if n > 0 {
        lemma_dft_sum_zero(xw, t, k, n - 1);
        assert(xw[n - 1] * t[(n - 1) * k % 4096] == 0) by (nonlinear_arith)
            requires xw[n - 1] == 0i64;
        assert(xw[n - 1] * t[((n - 1) * k % 4096 + 3072) % 4096] == 0) by (nonlinear_arith)
            requires xw[n - 1] == 0i64;
    }
}

/// One transform bin of a windowed frame: the pair of real and imaginary
/// parts, in milli units.
pub fn dft_bin(xw: &Vec<i64>, t: &Vec<i64>, k: usize) -> (r: (i64, i64))
    requires
        xw@.len() == 4096,
        forall|n: int| 0 <= n < 4096 ==> -100_000 <= (#[trigger] xw@[n]) <= 100_000,
        table_ok(t@),
        k < 4096,
    ensures
        r.0 == bin_re_spec(xw@, t@, k as int),
        r.1 == bin_im_spec(xw@, t@, k as int),
        -409_600_000 <= r.0 <= 409_600_000,
        -409_600_000 <= r.1 <= 409_600_000,
{
    let mut sum_re: i64 = 0;
    let mut sum_im: i64 = 0;
    let mut n: usize = 0;
    while n < BUFFER_SZ
        invariant
            n <= 4096,
            k < 4096,
            xw@.len() == 4096,
            forall|m: int| 0 <= m < 4096 ==> -100_000 <= (#[trigger] xw@[m]) <= 100_000,
            table_ok(t@),
            sum_re == dft_sum_re(xw@, t@, k as int, n as int),
            sum_im == dft_sum_im(xw@, t@, k as int, n as int),
            -100_000_000 * n <= sum_re <= 100_000_000 * n,
            -100_000_000 * n <= sum_im <= 100_000_000 * n,
        decreases 4096 - n,
    {
        assert(n * k < 4096 * 4096) by (nonlinear_arith)
            requires n < 4096usize, k < 4096usize;
        let idx: usize = (n * k) % 4096;
        let idx_im: usize = (idx + 3072) % 4096;
        let xv: i64 = xw[n];
        let cv: i64 = t[idx];
        let sv: i64 = t[idx_im];
        assert(-100_000_000 <= xv * cv <= 100_000_000) by (nonlinear_arith)
            requires -100_000i64 <= xv <= 100_000i64, -1000i64 <= cv <= 1000i64;
        assert(-100_000_000 <= xv * sv <= 100_000_000) by (nonlinear_arith)
            requires -100_000i64 <= xv <= 100_000i64, -1000i64 <= sv <= 1000i64;
        sum_re = sum_re + xv * cv;
        sum_im = sum_im + xv * sv;
        n = n + 1;
    }
    let re = crate::fixed::div_trunc(sum_re, 1000);
    let im = crate::fixed::div_trunc(sum_im, 1000);
    proof {
        crate::fixed::lemma_tdiv_bound(sum_re as int, 1000, 409_600_000);
        crate::fixed::lemma_tdiv_bound(sum_im as int, 1000, 409_600_000);
    }
    (re, im)
}

} // verus!
