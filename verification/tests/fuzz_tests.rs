//! The fuzz window and the fuzzed interval against values computed with
//! ordinary double arithmetic.
use fsrs::{get_fuzz_range, Fp, Parameters, ParametersError, Seed};

fn fp_val(f: Fp) -> f64 {
    (f.m as f64) * (2.0f64).powi(f.e as i32)
}

#[test]
fn test_fuzz_range_bands() {
    assert_eq!(get_fuzz_range(3, 1, 36500), (2, 4));
    assert_eq!(get_fuzz_range(10, 0, 36500), (8, 12));
    assert_eq!(get_fuzz_range(100, 30, 36500), (93, 107));
    assert_eq!(get_fuzz_range(2500, 365, 36500), (2373, 2627));
    assert_eq!(get_fuzz_range(36500, 0, 36500), (34673, 36500));
    assert_eq!(get_fuzz_range(7, 7, 36500), (5, 9));
}

#[test]
fn test_fuzz_range_clamped_by_cap() {
    assert_eq!(get_fuzz_range(20, 10, 100), (17, 23));
    let (mn, mx) = get_fuzz_range(100, 0, 50);
    assert!(mn <= mx && mx <= 50);
}

#[test]
fn test_apply_fuzz_disabled_passes_interval_through() {
    let params = Parameters::default();
    assert!(!params.enable_fuzz);
    assert_eq!(fp_val(params.apply_fuzz(10, 0)), 10.0);
    assert_eq!(fp_val(params.apply_fuzz(1, 5)), 1.0);
}

#[test]
fn test_apply_fuzz_seeded() {
    let mut params = Parameters::default();
    params.enable_fuzz = true;
    params.seed = Seed::new("12345".to_string());
    assert_eq!(fp_val(params.apply_fuzz(10, 0)), 8.980796257815536);
    assert_eq!(fp_val(params.apply_fuzz(100, 30)), 95.94238877344661);
    assert_eq!(fp_val(params.apply_fuzz(2500, 365)), 2423.0206091485925);
    // below two and a half days the interval is never fuzzed
    assert_eq!(fp_val(params.apply_fuzz(2, 0)), 2.0);
}

#[test]
fn test_parameters_validate() {
    let params = Parameters::default();
    assert!(params.validate().is_ok());
    assert_eq!(params.w.len(), 19);

    let mut short = Parameters::default();
    short.w = vec![0; 5];
    assert_eq!(short.validate(), Err(ParametersError::WrongWeightCount));

    let mut bad_retention = Parameters::default();
    bad_retention.request_retention = 1.0f64.to_bits();
    assert_eq!(bad_retention.validate(), Err(ParametersError::RetentionOutOfRange));

    let mut seventeen = Parameters::default();
    seventeen.w = vec![0x3fe0000000000000; 17];
    assert!(seventeen.validate().is_ok());
}

#[test]
fn test_default_parameters() {
    let params = Parameters::default();
    assert_eq!(params.request_retention, 0.9f64.to_bits());
    assert_eq!(params.maximum_interval, 36500);
    assert_eq!(params.w[0], 0.4197f64.to_bits());
    assert_eq!(params.w[18], 0.6468f64.to_bits());
    assert_eq!(params.decay, (-0.5f64).to_bits());
    assert_eq!(params.factor, (19.0f64 / 81.0f64).to_bits());
    assert!(params.enable_short_term);
}

#[test]
fn test_u64_to_string() {
    assert_eq!(fsrs::u64_to_string(0), "0");
    assert_eq!(fsrs::u64_to_string(7), "7");
    assert_eq!(fsrs::u64_to_string(12345), "12345");
    assert_eq!(fsrs::u64_to_string(1727015666066), "1727015666066");
}

#[test]
fn test_fuzz_range_floors_at_elapsed() {
    // an interval beyond the days already elapsed may not fall back before them
    let (mn, mx) = get_fuzz_range(10, 9, 36500);
    assert!(mn >= 10);
    assert!(mn <= mx);
    // with more days already elapsed than the interval, no floor applies
    assert_eq!(get_fuzz_range(10, 30, 36500), (8, 12));
}
