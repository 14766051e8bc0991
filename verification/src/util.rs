//! Frequency and normalization utilities: the leaf formulas the analyzer is
//! calibrated with. The sample rate and buffer size here are design
//! constants, not configuration.

use vstd::prelude::*;
use crate::fixed::tdiv;

verus! {

/// Nominal sample rate the frequency axis is calibrated to, in milli-hertz
/// (44100 Hz).
pub const SAMPLE_RATE_MILLIHZ: u64 = 44_100_000;

/// Nyquist limit for the nominal rate, in milli-hertz (22050 Hz).
pub const MAX_FREQ_MILLIHZ: u64 = 22_050_000;

/// Number of samples in one analysis frame.
pub const BUFFER_SZ: usize = 4096;

/// Number of transform bins kept before the Nyquist cut.
pub const BUFFER_SZ_HALF: usize = 2048;

/// Sum of two machine integers.
pub fn add(a: i32, b: i32) -> (r: i32)
    requires
        i32::MIN <= a + b <= i32::MAX,
    ensures
        r == a + b,
{
    a + b
}

/// What `get_freq` returns for bin `k`:
/// `k * sample_rate / (BUFFER_SZ / 2) + 1`, in milli-hertz.
pub open spec fn freq_spec(k: int) -> int {
    k * 44_100_000 / 2048 + 1000
}

/// Approximate center frequency of transform bin `idx`, in milli-hertz.
/// The added one hertz keeps the frequency away from zero for the
/// logarithms taken downstream.
pub fn get_freq(idx: usize) -> (freq: u64)
    requires
        idx < BUFFER_SZ_HALF,
    ensures
        freq == freq_spec(idx as int),
        freq >= 1000,
{
    (idx as u64) * SAMPLE_RATE_MILLIHZ / (BUFFER_SZ_HALF as u64) + 1000
}

/// What `get_normalized_db` returns: the decibel value shifted up by 90 dB
/// and divided by 90, still in milli units.
pub open spec fn normalized_db(db: int) -> int {
    tdiv(db + 90_000, 90)
}

/// Map a decibel value (milli-dB) to a normalized intensity (milli units):
/// `(db + 90) / 90`. The result is not clamped here; callers clamp downstream.
pub fn get_normalized_db(db: i64) -> (r: i64)
    requires
        db <= i64::MAX - 90_000,
    ensures
        r == normalized_db(db as int),
        db == 0 ==> r == 1000,
{
    crate::fixed::div_trunc(db + 90_000, 90)
}

/// The conversion boundary of the normalization: a decibel value that could
/// not be converted to a number is treated as zero decibels rather than
/// failing — a deliberate degrade-gracefully policy for a display-facing
/// quantity, not an error signal.
pub fn get_normalized_db_or_zero(db: Option<i64>) -> (r: i64)
    requires
        db matches Some(v) ==> v <= i64::MAX - 90_000,
    ensures
        db matches Some(v) ==> r == normalized_db(v as int),
        db is None ==> r == 1000,
{
    match db {
        Some(v) => get_normalized_db(v),
        None => get_normalized_db(0),
    }
}

} // verus!
