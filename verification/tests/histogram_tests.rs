//! Histogram accumulation, the empty-dataset failure, and log2
//! normalization.

use accuracy_heatmap::HeatmapError;
use accuracy_heatmap::histogram::{Histogram, build_histogram, log_transform_hashmap};
use accuracy_heatmap::identity::{CigarOp, DivergenceTag, EditDistanceTag, RecordInfo};
use accuracy_heatmap::transform::AccuracyMode;

fn read_with_divergence(len: usize, de_myriadths: u32) -> RecordInfo {
    RecordInfo {
        seq_len: len,
        divergence: DivergenceTag::Myriadths(de_myriadths),
        edit_distance: EditDistanceTag::Missing,
        cigar: Vec::new(),
        base_qualities: Vec::new(),
    }
}

#[test]
fn three_reads_end_to_end() {
    // three reads of length 100,000 with identities 100.0, 95.0, 90.0
    let records = vec![
        read_with_divergence(100000, 0),
        read_with_divergence(100000, 500),
        read_with_divergence(100000, 1000),
    ];
    let hist = build_histogram(&records, AccuracyMode::Percent, false).unwrap();
    // all three land on column 500; rows 0, 100 and 200; one count each
    assert_eq!(hist.count_at(500, 0), 1);
    assert_eq!(hist.count_at(500, 100), 1);
    assert_eq!(hist.count_at(500, 200), 1);
    assert_eq!(hist.total(), 3);
    assert_eq!(hist.max_count(), 1);
}

#[test]
fn every_record_is_counted_once() {
    let mut records = Vec::new();
    for i in 0..20u32 {
        records.push(read_with_divergence(500 + 40 * i as usize, 100 * (i % 7)));
    }
    let hist = build_histogram(&records, AccuracyMode::Percent, false).unwrap();
    assert_eq!(hist.total(), 20);
}

#[test]
fn empty_dataset_is_a_data_error() {
    let records: Vec<RecordInfo> = Vec::new();
    assert_eq!(
        build_histogram(&records, AccuracyMode::Percent, false).unwrap_err(),
        HeatmapError::DataError
    );
}

#[test]
fn one_bad_record_aborts_the_dataset() {
    let bad = RecordInfo {
        seq_len: 100,
        divergence: DivergenceTag::Missing,
        edit_distance: EditDistanceTag::Missing,
        cigar: vec![CigarOp::Aligned(100)],
        base_qualities: Vec::new(),
    };
    let records = vec![read_with_divergence(100, 0), bad];
    assert_eq!(
        build_histogram(&records, AccuracyMode::Percent, false).unwrap_err(),
        HeatmapError::ParseError
    );
}

#[test]
fn phred_mode_uses_the_phred_rows() {
    let records = vec![read_with_divergence(100000, 1000)];
    let hist = build_histogram(&records, AccuracyMode::Phred, false).unwrap();
    // identity 90% is phred 10, which sits at row 450
    assert_eq!(hist.count_at(500, 450), 1);
}

#[test]
fn quality_mode_scores_unaligned_reads() {
    let rec = RecordInfo {
        seq_len: 1000,
        divergence: DivergenceTag::Missing,
        edit_distance: EditDistanceTag::Missing,
        cigar: Vec::new(),
        base_qualities: vec![20; 1000],
    };
    let hist = build_histogram(&vec![rec], AccuracyMode::Percent, true).unwrap();
    // q20 throughout means identity 99%, i.e. row 20; length 1000 is column 300
    assert_eq!(hist.count_at(300, 20), 1);
    assert_eq!(hist.total(), 1);
}

#[test]
fn log2_normalization_values() {
    let mut hist = Histogram::new();
    for _ in 0..8 {
        hist.increment(10, 20);
    }
    hist.increment(30, 40);
    for _ in 0..5 {
        hist.increment(50, 60);
    }
    let normalized = log_transform_hashmap(hist);
    // a raw count of 8 normalizes to 3, a raw count of 1 to 0
    assert_eq!(normalized.count_at(10, 20), 3);
    assert_eq!(normalized.count_at(30, 40), 0);
    // floor(log2(5)) == 2
    assert_eq!(normalized.count_at(50, 60), 2);
    // untouched bins stay empty
    assert_eq!(normalized.count_at(0, 0), 0);
}
