use spectrum_core::spectrum::apply_bandpass;
use spectrum_core::spectrum::apply_window;
use spectrum_core::spectrum::smooth_spectrum;
use spectrum_core::spectrum::SpectrumAnalyzer;
use spectrum_core::spectrum::SpectrumError;
use spectrum_core::transform::build_cos_table;
use spectrum_core::transform::dft_bin;
use spectrum_core::fixed::isqrt;

const BUFFER_SZ: usize = 4096;
const RATE_MHZ: u64 = 44_100_000;

/// A sine at `freq` Hz, amplitude one (1000 milli units), sampled at
/// 44100 Hz.
fn tone(freq: f64, len: usize) -> Vec<i64> {
    (0..len)
        .map(|n| {
            let phase = 2.0 * std::f64::consts::PI * freq * (n as f64) / 44100.0;
            (1000.0 * phase.sin()).round() as i64
        })
        .collect()
}

#[test]
fn spectrum_has_fixed_length_for_any_rate() {
    // Any positive sample rate, any frame of the right length: the output
    // length is exactly the frame length.
    for rate in [1u64, 22_050_000, 44_100_000, 96_000_000] {
        let mut analyzer = SpectrumAnalyzer::new(rate);
        let spectrum = analyzer.compute_spectrum(&vec![0i64; BUFFER_SZ]).unwrap();
        assert_eq!(spectrum.len(), BUFFER_SZ);
    }
}

#[test]
fn spectrum_rejects_wrong_length() {
    let mut analyzer = SpectrumAnalyzer::new(RATE_MHZ);
    assert_eq!(
        analyzer.compute_spectrum(&vec![0i64; 100]),
        Err(SpectrumError::WrongLength)
    );
    assert_eq!(
        analyzer.compute_spectrum(&Vec::new()),
        Err(SpectrumError::WrongLength)
    );
}

#[test]
fn spectrum_values_stay_in_range() {
    // Every value is nonnegative; the clamp holds each bin at 1.2 before
    // the ERB weighting, and the weighting can push it no further than a
    // factor of 5.28.
    let mut analyzer = SpectrumAnalyzer::new(RATE_MHZ);
    let spectrum = analyzer.compute_spectrum(&tone(1378.125, BUFFER_SZ)).unwrap();
    assert!(spectrum.iter().all(|&v| (0..=6336).contains(&v)));
    // The deliberate overshoot: weighted bins may exceed the 1.2 clamp.
    assert!(spectrum.iter().any(|&v| v > 1200));
}

#[test]
fn silence_gives_zero_spectrum() {
    let mut analyzer = SpectrumAnalyzer::new(RATE_MHZ);
    let spectrum = analyzer.compute_spectrum(&vec![0i64; BUFFER_SZ]).unwrap();
    assert!(spectrum.iter().all(|&v| v == 0));
}

#[test]
fn pure_tone_peaks_at_its_transform_bin() {
    // A tone on the transform's native grid (bin 128 of 4096 at 44100 Hz is
    // 1378.125 Hz) peaks exactly there in the raw, unweighted magnitudes.
    let samples = tone(1378.125, BUFFER_SZ);
    let windowed = apply_window(&samples);
    let table = build_cos_table();
    let mut best_bin: usize = 0;
    let mut best_mag: u64 = 0;
    for k in 0..BUFFER_SZ / 2 {
        let (re, im) = dft_bin(&windowed, &table, k);
        let mag = isqrt((re * re + im * im) as u64);
        if mag > best_mag {
            best_mag = mag;
            best_bin = k;
        }
    }
    assert_eq!(best_bin, 128);
    assert!(best_mag > 100_000);
}

#[test]
fn analyzer_starts_at_high_resolution() {
    let analyzer = SpectrumAnalyzer::new(RATE_MHZ);
    assert!(matches!(
        analyzer.resolution,
        spectrum_core::spectrum::Resolution::High
    ));
    assert_eq!(analyzer.filters.len(), 4);
    assert_eq!(analyzer.filters[0].low_mhz, 0);
    assert_eq!(analyzer.filters[3].high_mhz, 20_000_000);
}

#[test]
fn band_levels_are_always_four() {
    let mut analyzer = SpectrumAnalyzer::new(RATE_MHZ);
    assert_eq!(analyzer.compute_band_levels(&vec![500i64]).unwrap().len(), 4);
    assert_eq!(analyzer.compute_band_levels(&vec![0i64; 10_000]).unwrap().len(), 4);
    assert_eq!(analyzer.compute_band_levels(&tone(440.0, 123)).unwrap().len(), 4);
}

#[test]
fn band_levels_reject_empty_input() {
    let mut analyzer = SpectrumAnalyzer::new(RATE_MHZ);
    assert_eq!(
        analyzer.compute_band_levels(&Vec::new()),
        Err(SpectrumError::EmptyInput)
    );
}

#[test]
fn band_levels_on_constant_input() {
    // One frame of full-scale DC through fresh filters, exact values.
    let mut analyzer = SpectrumAnalyzer::new(RATE_MHZ);
    let levels = analyzer.compute_band_levels(&vec![1000i64; BUFFER_SZ]).unwrap();
    assert_eq!(levels, vec![0, 1, 18, 107]);
}

#[test]
fn high_band_tone_dominates_high_band() {
    // A sustained sinusoid at the top band's center, after two frames of
    // settling: the top band's level exceeds the other three.
    let mut analyzer = SpectrumAnalyzer::new(RATE_MHZ);
    let samples = tone(13_000.0, 3 * BUFFER_SZ);
    let mut levels = Vec::new();
    for frame in 0..3 {
        let part = samples[frame * BUFFER_SZ..(frame + 1) * BUFFER_SZ].to_vec();
        levels = analyzer.compute_band_levels(&part).unwrap();
    }
    assert!(levels[3] > levels[0]);
    assert!(levels[3] > levels[1]);
    assert!(levels[3] > levels[2]);
}

#[test]
fn filter_state_persists_across_calls() {
    // Feeding the same frame twice moves the filters on from their state:
    // the levels of the second call differ from the first for a signal the
    // filters have not settled on.
    let mut analyzer = SpectrumAnalyzer::new(RATE_MHZ);
    let frame = tone(50.0, BUFFER_SZ);
    let first = analyzer.compute_band_levels(&frame).unwrap();
    let second = analyzer.compute_band_levels(&frame).unwrap();
    assert_ne!(first, second);
}

#[test]
fn smoothing_keeps_constant_sequences() {
    // A constant sequence is a fixed point of the three-point average.
    let mut spectrum = vec![700i64; 64];
    smooth_spectrum(&mut spectrum);
    assert_eq!(spectrum, vec![700i64; 64]);
}

#[test]
fn smoothing_averages_neighbours() {
    // The pass runs left to right in place: 0,4,0,0 becomes 0,2,x,0 with
    // the second element the average of 0, 4 and 0 weighted 1-2-1, and the
    // third computed from the already-updated second.
    let mut spectrum = vec![0i64, 4, 0, 0];
    smooth_spectrum(&mut spectrum);
    assert_eq!(spectrum, vec![0, 2, 0, 0]);
    let mut ramp = vec![0i64, 4, 8, 12, 16];
    smooth_spectrum(&mut ramp);
    assert_eq!(ramp, vec![0, 4, 8, 12, 16]);
}

#[test]
fn bandpass_output_length_matches_input() {
    let samples = tone(440.0, 1000);
    let out = apply_bandpass(&samples, 80_000, 1_000_000, RATE_MHZ);
    assert_eq!(out.len(), samples.len());
    let silent = apply_bandpass(&vec![0i64; 100], 80_000, 1_000_000, RATE_MHZ);
    assert!(silent.iter().all(|&v| v == 0));
}

#[test]
fn window_endpoints_vanish() {
    // The raised cosine is zero at both ends of the frame and full scale in
    // the middle.
    let samples = vec![1000i64; BUFFER_SZ];
    let windowed = apply_window(&samples);
    assert_eq!(windowed.len(), BUFFER_SZ);
    assert_eq!(windowed[0], 0);
    assert_eq!(windowed[BUFFER_SZ - 1], 0);
    assert!(windowed[BUFFER_SZ / 2] > 990);
}
