//! The three-tier identity estimation on hand-built records.

use accuracy_heatmap::HeatmapError;
use accuracy_heatmap::identity::{
    CigarOp, DivergenceTag, EditDistanceTag, RecordInfo, gap_compressed_identity, ubam_accuracy,
};

fn record_with_qual(qual: &[u8]) -> RecordInfo {
    RecordInfo {
        seq_len: qual.len(),
        divergence: DivergenceTag::Missing,
        edit_distance: EditDistanceTag::Missing,
        cigar: Vec::new(),
        base_qualities: qual.to_vec(),
    }
}

#[test]
fn test_ubam_accuracy() {
    let record = record_with_qual(&[30, 30, 30, 30, 30]);
    let accuracy = ubam_accuracy(&record) as f32 / 100.0;
    assert!((accuracy - 99.9).abs() < f32::EPSILON);

    let record = record_with_qual(&[20, 20, 20, 20, 20]);
    let accuracy = ubam_accuracy(&record) as f32 / 100.0;
    assert!((accuracy - 99.0).abs() < f32::EPSILON);

    let record = record_with_qual(&[10, 10, 10, 10, 10]);
    let accuracy = ubam_accuracy(&record) as f32 / 100.0;
    assert!((accuracy - 90.0).abs() < f32::EPSILON);
}

#[test]
fn ubam_accuracy_empty_quality_is_full_identity() {
    let record = record_with_qual(&[]);
    assert_eq!(ubam_accuracy(&record), 10000);
}

fn aligned_record(
    divergence: DivergenceTag,
    edit_distance: EditDistanceTag,
    cigar: Vec<CigarOp>,
) -> RecordInfo {
    RecordInfo { seq_len: 100, divergence, edit_distance, cigar, base_qualities: Vec::new() }
}

#[test]
fn divergence_tag_is_preferred() {
    // de = 0.05 -> identity 95%
    let rec = aligned_record(
        DivergenceTag::Myriadths(500),
        EditDistanceTag::Missing,
        Vec::new(),
    );
    assert_eq!(gap_compressed_identity(&rec), Ok(9500));
}

#[test]
fn divergence_tag_of_wrong_type_is_fatal() {
    let rec = aligned_record(
        DivergenceTag::Unsuitable,
        EditDistanceTag::Count(3),
        vec![CigarOp::Aligned(100)],
    );
    assert_eq!(gap_compressed_identity(&rec), Err(HeatmapError::ParseError));
}

#[test]
fn identity_from_cigar_and_edit_distance() {
    // 95 aligned bases, one 5-base insertion, NM = 7:
    // edits = 7 - 5 + 1 = 3 over 95 + 1 = 96 columns -> floor(96.875%) in centi
    let rec = aligned_record(
        DivergenceTag::Missing,
        EditDistanceTag::Count(7),
        vec![CigarOp::Aligned(90), CigarOp::Insertion(5), CigarOp::Aligned(5)],
    );
    assert_eq!(gap_compressed_identity(&rec), Ok(9687));
}

#[test]
fn perfect_alignment_is_full_identity() {
    let rec = aligned_record(
        DivergenceTag::Missing,
        EditDistanceTag::Count(0),
        vec![CigarOp::Aligned(100)],
    );
    assert_eq!(gap_compressed_identity(&rec), Ok(10000));
}

#[test]
fn clipped_operations_are_ignored() {
    let rec = aligned_record(
        DivergenceTag::Missing,
        EditDistanceTag::Count(0),
        vec![CigarOp::Other(10), CigarOp::Aligned(50), CigarOp::Other(40)],
    );
    assert_eq!(gap_compressed_identity(&rec), Ok(10000));
}

#[test]
fn missing_edit_distance_tag_is_fatal() {
    let rec = aligned_record(
        DivergenceTag::Missing,
        EditDistanceTag::Missing,
        vec![CigarOp::Aligned(100)],
    );
    assert_eq!(gap_compressed_identity(&rec), Err(HeatmapError::ParseError));
}

#[test]
fn unexpected_edit_distance_width_is_fatal() {
    let rec = aligned_record(
        DivergenceTag::Missing,
        EditDistanceTag::Unsuitable,
        vec![CigarOp::Aligned(100)],
    );
    assert_eq!(gap_compressed_identity(&rec), Err(HeatmapError::ParseError));
}

#[test]
fn alignment_without_aligned_bases_is_fatal() {
    let rec = aligned_record(
        DivergenceTag::Missing,
        EditDistanceTag::Count(0),
        vec![CigarOp::Other(100)],
    );
    assert_eq!(gap_compressed_identity(&rec), Err(HeatmapError::ParseError));
}
