//! Spectrum analysis core: fixed-size window framing, a forward spectral
//! transform, perceptual (ERB) frequency weighting, decibel normalization and
//! temporal smoothing, together with a four-band IIR band-pass filter bank.
//!
//! All quantities are carried in fixed-point integers: an amplitude, a
//! spectrum intensity or a decibel value is stored in thousandths (milli
//! units, `fixed::SCALE`), a frequency in milli-hertz. This keeps every
//! arithmetic step exact enough for visual calibration while making the whole
//! pipeline checkable by the verifier.

pub mod fixed;
pub mod logs;
pub mod spectrum;
pub mod transform;
pub mod trig;
pub mod util;
