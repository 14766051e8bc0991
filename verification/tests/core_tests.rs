use spectrum_core::fixed::clamp_i64;
use spectrum_core::fixed::div_trunc;
use spectrum_core::fixed::isqrt;
use spectrum_core::logs::decibels_milli;
use spectrum_core::logs::erb_weight;
use spectrum_core::logs::log10_milli;
use spectrum_core::trig::cos_turns;
use spectrum_core::util::get_freq;
use spectrum_core::util::get_normalized_db;

#[test]
fn test_add() {
    assert_eq!(spectrum_core::util::add(2, 2), 4);
}

#[test]
fn bin_zero_maps_to_one_hertz() {
    // The +1.0 Hz offset puts bin zero at exactly one hertz.
    assert_eq!(get_freq(0), 1000);
}

#[test]
fn frequency_mapping_examples() {
    // idx * 44100 / 2048 + 1, in milli-hertz, truncated.
    assert_eq!(get_freq(1), 21533 + 1000);
    assert_eq!(get_freq(1024), 22_050_000 + 1000);
    assert_eq!(get_freq(2047), 44_078_466 + 1000);
}

#[test]
fn zero_decibels_normalizes_to_one() {
    // (0 + 90) / 90 is exactly one.
    assert_eq!(get_normalized_db(0), 1000);
}

#[test]
fn decibel_normalization_examples() {
    assert_eq!(get_normalized_db(-90_000), 0);
    assert_eq!(get_normalized_db(18_000), 1200);
    // Truncation is toward zero for values below -90 dB.
    assert_eq!(get_normalized_db(-200_000), -1222);
}

#[test]
fn failed_conversion_defaults_to_zero_decibels() {
    // A value that could not be converted counts as zero decibels, which
    // normalizes to exactly one.
    assert_eq!(spectrum_core::util::get_normalized_db_or_zero(None), 1000);
    assert_eq!(
        spectrum_core::util::get_normalized_db_or_zero(Some(-90_000)),
        0
    );
}

#[test]
fn truncating_division() {
    assert_eq!(div_trunc(7, 2), 3);
    assert_eq!(div_trunc(-7, 2), -3);
    assert_eq!(div_trunc(0, 90), 0);
}

#[test]
fn clamping() {
    assert_eq!(clamp_i64(-5, 0, 1200), 0);
    assert_eq!(clamp_i64(1300, 0, 1200), 1200);
    assert_eq!(clamp_i64(700, 0, 1200), 700);
}

#[test]
fn integer_square_root() {
    assert_eq!(isqrt(0), 0);
    assert_eq!(isqrt(15), 3);
    assert_eq!(isqrt(16), 4);
    assert_eq!(isqrt(10_000_000_000), 100_000);
    assert_eq!(isqrt(u64::MAX), 4_294_967_295);
}

#[test]
fn cosine_table_values() {
    // Whole turns give exactly one; the quarter and half turn land on the
    // axis values.
    assert_eq!(cos_turns(0, 4096), 1000);
    assert_eq!(cos_turns(4096, 4096), 1000);
    assert_eq!(cos_turns(1024, 4096), 0);
    assert_eq!(cos_turns(2048, 4096), -1000);
    assert_eq!(cos_turns(512, 4096), 707);
    assert_eq!(cos_turns(4095, 4095), 1000);
}

#[test]
fn logarithm_values() {
    // Exact on whole decades, close elsewhere.
    assert_eq!(log10_milli(1000), 0);
    assert_eq!(log10_milli(10_000), 1000);
    assert_eq!(log10_milli(1_000_000), 3000);
    assert_eq!(log10_milli(1), -3000);
    assert_eq!(log10_milli(2000), 299);
    assert_eq!(log10_milli(500), -305);
}

#[test]
fn decibel_floor_on_silence() {
    // The zero magnitude takes the epsilon-guard floor of -200 dB.
    assert_eq!(decibels_milli(0), -200_000);
    assert_eq!(decibels_milli(1000), 0);
    assert_eq!(decibels_milli(10_000), 20_000);
}

#[test]
fn erb_weight_values() {
    assert_eq!(erb_weight(1_000_000), 15_536);
    assert_eq!(erb_weight(22_050_000), 42_500);
    assert_eq!(erb_weight(1000), 0);
}
