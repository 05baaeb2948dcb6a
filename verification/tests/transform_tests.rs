//! Boundary and monotonicity checks for the coordinate transforms.

use accuracy_heatmap::transform::{
    phred_centi, transform_accuracy_percent, transform_accuracy_phred, transform_length,
};

#[test]
fn test_accuracy_to_phred() {
    assert!((phred_centi(9000) as f32 / 100.0 - 10.0).abs() < 0.01);
    assert!((phred_centi(9900) as f32 / 100.0 - 20.0).abs() < 0.01);
    assert!((phred_centi(9990) as f32 / 100.0 - 30.0).abs() < 0.01);
}

#[test]
fn transform_length_boundaries() {
    assert_eq!(transform_length(1), 0);
    assert_eq!(transform_length(10), 100);
    assert_eq!(transform_length(100), 200);
    assert_eq!(transform_length(100000), 500);
    assert_eq!(transform_length(1000000), 600);
    // beyond the ceiling the column saturates instead of extrapolating
    assert_eq!(transform_length(2000000), 600);
    assert_eq!(transform_length(usize::MAX), 600);
}

#[test]
fn transform_length_monotonic_samples() {
    let mut prev = 0;
    for len in [1usize, 2, 9, 10, 11, 99, 1000, 31623, 999999, 1000000, 5000000] {
        let x = transform_length(len);
        assert!(x >= prev);
        assert!(x <= 600);
        prev = x;
    }
    // within one percent of a decade boundary
    assert_eq!(transform_length(999), 299);
    assert_eq!(transform_length(1000), 300);
}

#[test]
fn transform_accuracy_percent_boundaries() {
    // the configured minimum identity spans the axis end, full identity row 0
    assert_eq!(transform_accuracy_percent(7000), 600);
    assert_eq!(transform_accuracy_percent(10000), 0);
    assert_eq!(transform_accuracy_percent(9500), 100);
    assert_eq!(transform_accuracy_percent(9000), 200);
    // identities below the minimum clamp to the last row
    assert_eq!(transform_accuracy_percent(6000), 600);
    assert_eq!(transform_accuracy_percent(0), 600);
}

#[test]
fn transform_accuracy_percent_monotonic_samples() {
    let mut prev = usize::MAX;
    for c in [0u32, 5000, 7000, 8000, 9000, 9900, 9999, 10000] {
        let y = transform_accuracy_percent(c);
        assert!(y <= prev);
        prev = y;
    }
}

#[test]
fn transform_accuracy_phred_values() {
    // identity 90% is phred 10, three decades under the cap of 40
    assert_eq!(transform_accuracy_phred(9000), 450);
    assert_eq!(transform_accuracy_phred(9900), 300);
    assert_eq!(transform_accuracy_phred(9990), 150);
    // at and above phred 40 the row clamps to 0
    assert_eq!(transform_accuracy_phred(9999), 0);
    assert_eq!(transform_accuracy_phred(10000), 0);
    // identity 0 fills the axis
    assert_eq!(transform_accuracy_phred(0), 600);
}
