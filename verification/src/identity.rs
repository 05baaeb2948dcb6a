//! Per-read accuracy estimation, as an identity in hundredths of a percent.
//!
//! Three tiers, tried in order: a precomputed gap-compressed divergence tag
//! from the aligner; reconstruction from the edit-operation list and the
//! edit-distance tag; and, for unaligned reads, the expected accuracy from
//! per-base quality scores.

use vstd::prelude::*;
use vstd::arithmetic::power::pow;
use vstd::arithmetic::power::{lemma_pow0, lemma_pow1, lemma_pow_adds, lemma_pow_positive};
use vstd::arithmetic::div_mod::{
    lemma_div_is_ordered,
    lemma_div_denominator,
    lemma_div_multiples_vanish,
    lemma_fundamental_div_mod_converse,
};
use vstd::arithmetic::mul::lemma_mul_inequality;
use crate::HeatmapError;

verus! {

/// One run-length entry of an alignment's edit-operation list.  `Aligned`
/// covers the aligned kinds (match, sequence match, mismatch); insertions
/// and deletions are the gap kinds; everything else (clips, skips, padding)
/// is carried but ignored by the identity computation.
#[derive(Copy, Clone, Debug, PartialEq, Eq, Structural)]
pub enum CigarOp {
    Aligned(u32),
    Insertion(u32),
    Deletion(u32),
    Other(u32),
}

/// The aligner's gap-compressed sequence-divergence tag, when present, as
/// a fraction in ten-thousandths (`de * 10000` rounded by the caller).
/// A tag of an unexpected type is kept apart from an absent tag: the
/// former is a fatal parse error, the latter selects the next tier.
#[derive(Copy, Clone, Debug, PartialEq, Eq, Structural)]
pub enum DivergenceTag {
    Missing,
    Myriadths(u32),
    Unsuitable,
}

/// The record's edit-distance tag (`NM`), an unsigned count when present
/// with one of the expected integer widths.
#[derive(Copy, Clone, Debug, PartialEq, Eq, Structural)]
pub enum EditDistanceTag {
    Missing,
    Count(u32),
    Unsuitable,
}

/// Everything the pipeline reads from one filtered alignment record.
#[derive(Clone, Debug)]
pub struct RecordInfo {
    /// Length of the read sequence.
    pub seq_len: usize,
    /// Divergence tag, preferred identity source.
    pub divergence: DivergenceTag,
    /// Edit-distance tag, used when the divergence tag is absent.
    pub edit_distance: EditDistanceTag,
    /// Run-length edit-operation list of the alignment.
    pub cigar: Vec<CigarOp>,
    /// Per-base quality scores (phred units).
    pub base_qualities: Vec<u8>,
}

/// Total length of the aligned (match-kind) operations.
pub open spec fn spec_matches(s: Seq<CigarOp>) -> int
    decreases s.len(),
{
    if s.len() == 0 {
        0
    } else {
        spec_matches(s.drop_last()) + match s.last() {
            CigarOp::Aligned(l) => l as int,
            _ => 0int,
        }
    }
}

/// Total length of the insertion and deletion runs.
pub open spec fn spec_gap_size(s: Seq<CigarOp>) -> int
    decreases s.len(),
{
    if s.len() == 0 {
        0
    } else {
        spec_gap_size(s.drop_last()) + match s.last() {
            CigarOp::Insertion(l) => l as int,
            CigarOp::Deletion(l) => l as int,
            _ => 0int,
        }
    }
}

/// Number of contiguous insertion or deletion runs.
pub open spec fn spec_gap_count(s: Seq<CigarOp>) -> int
    decreases s.len(),
{
    if s.len() == 0 {
        0
    } else {
        spec_gap_count(s.drop_last()) + match s.last() {
            CigarOp::Insertion(_) => 1int,
            CigarOp::Deletion(_) => 1int,
            _ => 0int,
        }
    }
}

proof fn lemma_cigar_take_step(s: Seq<CigarOp>, i: int)
    requires
        0 <= i < s.len(),
    ensures
        spec_matches(s.take(i + 1)) == spec_matches(s.take(i)) + match s[i] {
            CigarOp::Aligned(l) => l as int,
            _ => 0int,
        },
        spec_gap_size(s.take(i + 1)) == spec_gap_size(s.take(i)) + match s[i] {
            CigarOp::Insertion(l) => l as int,
            CigarOp::Deletion(l) => l as int,
            _ => 0int,
        },
        spec_gap_count(s.take(i + 1)) == spec_gap_count(s.take(i)) + match s[i] {
            CigarOp::Insertion(_) => 1int,
            CigarOp::Deletion(_) => 1int,
            _ => 0int,
        },
{
    assert(s.take(i + 1).drop_last() =~= s.take(i));
    assert(s.take(i + 1).last() == s[i]);
}

/// Gap-compressed identity reconstructed from alignment structure, in
/// hundredths of a percent: `100 * (1 - (nm - gap_size + gap_count) / m)`
/// with `m = matches + gap_count`, each indel run counting as one edit,
/// floored and saturated into `[0, 10000]`.
pub open spec fn spec_identity_from_alignment(
    nm: int,
    matches: int,
    gap_size: int,
    gap_count: int,
) -> int {
    let m = matches + gap_count;
    let d0 = nm + gap_count - gap_size;
    let d = if d0 < 0 {
        0int
    } else {
        d0
    };
    if d >= m {
        0int
    } else {
        (m - d) * 10000 / m
    }
}

/// Whether the fallback chain can produce an identity for this record:
/// either the divergence tag is present, or the edit-distance tag is a
/// usable count and the alignment has at least one aligned base or gap run.
pub open spec fn identity_computable(rec: RecordInfo) -> bool {
    match rec.divergence {
        DivergenceTag::Myriadths(_) => true,
        DivergenceTag::Unsuitable => false,
        DivergenceTag::Missing => rec.edit_distance is Count && spec_matches(rec.cigar@)
            + spec_gap_count(rec.cigar@) > 0,
    }
}

/// The identity the fallback chain produces, in hundredths of a percent
/// (meaningful when `identity_computable` holds).
pub open spec fn spec_identity_centi(rec: RecordInfo) -> int {
    match rec.divergence {
        DivergenceTag::Myriadths(d) => if d > 10000 {
            0int
        } else {
            10000 - d
        },
        _ => match rec.edit_distance {
            EditDistanceTag::Count(nm) => spec_identity_from_alignment(
                nm as int,
                spec_matches(rec.cigar@),
                spec_gap_size(rec.cigar@),
                spec_gap_count(rec.cigar@),
            ),
            _ => 0int,
        },
    }
}

/// Estimates one record's accuracy, trying the divergence tag first and
/// the edit-operation reconstruction second.  Fails exactly when neither
/// tier applies: a tag of an unexpected type, a missing edit-distance tag,
/// or an alignment with no aligned bases at all.
pub fn gap_compressed_identity(record: &RecordInfo) -> (r: Result<u32, HeatmapError>)
    requires
        record.cigar@.len() < 0x100000000,
    ensures
        r is Ok <==> identity_computable(*record),
        r is Ok ==> r->Ok_0 as int == spec_identity_centi(*record) && r->Ok_0 <= 10000,
        r is Err ==> r->Err_0 == HeatmapError::ParseError,
{
    match record.divergence {
        DivergenceTag::Myriadths(d) => {
            if d > 10000 {
                Ok(0)
            } else {
                Ok(10000 - d)
            }
        },
        DivergenceTag::Unsuitable => Err(HeatmapError::ParseError),
        DivergenceTag::Missing => {
            let nm: u32 = match record.edit_distance {
                EditDistanceTag::Count(v) => v,
                EditDistanceTag::Missing => {
                    return Err(HeatmapError::ParseError);
                },
                EditDistanceTag::Unsuitable => {
                    return Err(HeatmapError::ParseError);
                },
            };
            let n = record.cigar.len();
            let mut matches: u64 = 0;
            let mut gap_size: u64 = 0;
            let mut gap_count: u64 = 0;
            let mut i: usize = 0;
            proof {
                assert(record.cigar@.take(0) =~= Seq::<CigarOp>::empty());
            }
            while i < n
                invariant
                    i <= n,
                    n == record.cigar@.len(),
                    n < 0x100000000,
                    matches == spec_matches(record.cigar@.take(i as int)),
                    gap_size == spec_gap_size(record.cigar@.take(i as int)),
                    gap_count == spec_gap_count(record.cigar@.take(i as int)),
                    matches <= i * 0xffffffff,
                    gap_size <= i * 0xffffffff,
                    gap_count <= i,
                decreases n - i,
            {
                proof {
                    lemma_cigar_take_step(record.cigar@, i as int);
                }
                match record.cigar[i] {
                    CigarOp::Aligned(l) => {
                        matches = matches + l as u64;
                    },
                    CigarOp::Insertion(l) => {
                        gap_size = gap_size + l as u64;
                        gap_count = gap_count + 1;
                    },
                    CigarOp::Deletion(l) => {
                        gap_size = gap_size + l as u64;
                        gap_count = gap_count + 1;
                    },
                    CigarOp::Other(_) => {},
                }
                i = i + 1;
            }
            proof {
                assert(record.cigar@.take(n as int) =~= record.cigar@);
            }
            let m = matches + gap_count;
            if m == 0 {
                return Err(HeatmapError::ParseError);
            }
            let d0 = nm as u64 + gap_count;
            let d = if d0 >= gap_size {
                d0 - gap_size
            } else {
                0
            };
            if d >= m {
                Ok(0)
            } else {
                let num = (m - d) as u128 * 10000;
                let q = num / (m as u128);
                proof {
                    assert((m - d) as int * 10000 <= m as int * 10000);
                    lemma_div_is_ordered((m - d) as int * 10000, m as int * 10000, m as int);
                    lemma_div_multiples_vanish(10000, m as int);
                }
                Ok(q as u32)
            }
        },
    }
}

/// `floor(10^9 * 10^(-r/10))` for the ten digit positions `r = 0 .. 9`:
/// the scaled error probability of one phred decade.
pub open spec fn spec_error_base(r: int) -> int {
    if r == 0 {
        1000000000
    } else if r == 1 {
        794328234
    } else if r == 2 {
        630957344
    } else if r == 3 {
        501187233
    } else if r == 4 {
        398107170
    } else if r == 5 {
        316227766
    } else if r == 6 {
        251188643
    } else if r == 7 {
        199526231
    } else if r == 8 {
        158489319
    } else if r == 9 {
        125892541
    } else {
        0
    }
}

/// `floor(10^9 * 10^(-q/10))`, the error probability of one quality value
/// scaled by 10^9: each full ten qualities shift the decimal point once,
/// so the deeper decades are exact floor divisions of the base row.
pub open spec fn spec_error_scale(q: int) -> int {
    spec_error_base(q % 10) / pow(10, (q / 10) as nat)
}

/// Sum of the scaled error probabilities of a read's quality string.
pub open spec fn spec_qual_error_sum(s: Seq<u8>) -> int
    decreases s.len(),
{
    if s.len() == 0 {
        0
    } else {
        spec_qual_error_sum(s.drop_last()) + spec_error_scale(s.last() as int)
    }
}

/// Expected accuracy from quality scores, in hundredths of a percent:
/// `100 * (1 - mean(error_probabilities))`, floored, where the mean is
/// over the scaled probabilities; a read without quality values has no
/// evidence of errors and scores full identity.
pub open spec fn spec_ubam_accuracy(s: Seq<u8>) -> int {
    if s.len() == 0 {
        10000
    } else {
        let denom = s.len() as int * 100000;
        10000 - (spec_qual_error_sum(s) + denom - 1) / denom
    }
}

proof fn lemma_qual_take_step(s: Seq<u8>, i: int)
    requires
        0 <= i < s.len(),
    ensures
        spec_qual_error_sum(s.take(i + 1)) == spec_qual_error_sum(s.take(i)) + spec_error_scale(
            s[i] as int,
        ),
{
    assert(s.take(i + 1).drop_last() =~= s.take(i));
    assert(s.take(i + 1).last() == s[i]);
}

/// Looks up the scaled error probability of one quality value: the base
/// row for its digit position, shifted down one decimal place per decade.
fn error_scale(q: u8) -> (v: u64)
    ensures
        v as int == spec_error_scale(q as int),
        v <= 1000000000,
{
    let r = q % 10;
    let d = q / 10;
    let base: u64 = if r == 0 {
        1000000000
    } else if r == 1 {
        794328234
    } else if r == 2 {
        630957344
    } else if r == 3 {
        501187233
    } else if r == 4 {
        398107170
    } else if r == 5 {
        316227766
    } else if r == 6 {
        251188643
    } else if r == 7 {
        199526231
    } else if r == 8 {
        158489319
    } else {
        125892541
    };
    let mut v = base;
    let mut j: u8 = 0;
    proof {
        lemma_pow0(10);
        assert(base as int == spec_error_base(q as int % 10));
    }
    while j < d
        invariant
            j <= d,
            d == q / 10,
            v as int == spec_error_base(q as int % 10) / pow(10, j as nat),
            v <= 1000000000,
        decreases d - j,
    {
        proof {
            let b = spec_error_base(q as int % 10);
            lemma_pow_positive(10, j as nat);
            lemma_div_denominator(b, pow(10, j as nat), 10);
            lemma_pow_adds(10, j as nat, 1);
            lemma_pow1(10);
        }
        v = v / 10;
        j = j + 1;
    }
    v
}

/// Expected accuracy of an unaligned read from its quality scores, in
/// hundredths of a percent.
pub fn ubam_accuracy(record: &RecordInfo) -> (c: u32)
    ensures
        c as int == spec_ubam_accuracy(record.base_qualities@),
        c <= 10000,
{
    let n = record.base_qualities.len();
    if n == 0 {
        return 10000;
    }
    let mut sum: u128 = 0;
    let mut i: usize = 0;
    proof {
        assert(record.base_qualities@.take(0) =~= Seq::<u8>::empty());
    }
    while i < n
        invariant
            i <= n,
            n == record.base_qualities@.len(),
            sum == spec_qual_error_sum(record.base_qualities@.take(i as int)),
            sum <= i * 1000000000,
        decreases n - i,
    {
        proof {
            lemma_qual_take_step(record.base_qualities@, i as int);
        }
        let v = error_scale(record.base_qualities[i]);
        sum = sum + v as u128;
        i = i + 1;
    }
    proof {
        assert(record.base_qualities@.take(n as int) =~= record.base_qualities@);
    }
    let denom = (n as u128) * 100000;
    let ceil = (sum + denom - 1) / denom;
    proof {
        let s = sum as int;
        let dn = denom as int;
        assert(dn == n as int * 100000);
        assert(s <= n as int * 1000000000);
        assert(n as int * 1000000000 == dn * 10000) by {
            assert(n as int * 1000000000 == (n as int * 100000) * 10000) by (nonlinear_arith);
        }
        assert((s + dn - 1) / dn <= (dn * 10000 + dn - 1) / dn) by {
            lemma_div_is_ordered(s + dn - 1, dn * 10000 + dn - 1, dn);
        }
        assert((dn * 10000 + dn - 1) / dn == 10000) by {
            lemma_fundamental_div_mod_converse(dn * 10000 + dn - 1, dn, 10000, dn - 1);
        }
        vstd::arithmetic::div_mod::lemma_div_pos_is_pos(s + dn - 1, dn);
    }
    10000 - (ceil as u32)
}

/// Each base-row entry of the error table is exactly
/// `floor(10^9 * 10^(-r/10))`: its tenth power, scaled back up by `10^r`,
/// brackets `10^90` from below while its successor's overshoots.  Deeper
/// decades of `spec_error_scale` then follow by decimal shifts, since
/// `floor(x / 10^d)` composes with the floor already taken.
pub proof fn lemma_error_base_is_floor(r: int)
    requires
        0 <= r <= 9,
    ensures
        pow(spec_error_base(r), 10) * pow(10, r as nat) <= pow(10, 90),
        pow(10, 90) < pow(spec_error_base(r) + 1, 10) * pow(10, r as nat),
{
    vstd::arithmetic::power::lemma_pow_multiplies(10, 9, 10);
    crate::bignum::lemma_pow10_small();
    assert(pow(10, 90) == pow(1000000000, 10));
    reveal_with_fuel(pow, 12);
    if r == 0 {
        assert(pow(1000000000, 10) * pow(10, 0nat) <= pow(10, 90));
        assert(pow(10, 90) < pow(1000000001, 10) * pow(10, 0nat));
    } else if r == 1 {
        assert(pow(794328234, 10) * pow(10, 1nat) <= pow(10, 90));
        assert(pow(10, 90) < pow(794328235, 10) * pow(10, 1nat));
    } else if r == 2 {
        assert(pow(630957344, 10) * pow(10, 2nat) <= pow(10, 90));
        assert(pow(10, 90) < pow(630957345, 10) * pow(10, 2nat));
    } else if r == 3 {
        assert(pow(501187233, 10) * pow(10, 3nat) <= pow(10, 90));
        assert(pow(10, 90) < pow(501187234, 10) * pow(10, 3nat));
    } else if r == 4 {
        assert(pow(398107170, 10) * pow(10, 4nat) <= pow(10, 90));
        assert(pow(10, 90) < pow(398107171, 10) * pow(10, 4nat));
    } else if r == 5 {
        assert(pow(316227766, 10) * pow(10, 5nat) <= pow(10, 90));
        assert(pow(10, 90) < pow(316227767, 10) * pow(10, 5nat));
    } else if r == 6 {
        assert(pow(251188643, 10) * pow(10, 6nat) <= pow(10, 90));
        assert(pow(10, 90) < pow(251188644, 10) * pow(10, 6nat));
    } else if r == 7 {
        assert(pow(199526231, 10) * pow(10, 7nat) <= pow(10, 90));
        assert(pow(10, 90) < pow(199526232, 10) * pow(10, 7nat));
    } else if r == 8 {
        assert(pow(158489319, 10) * pow(10, 8nat) <= pow(10, 90));
        assert(pow(10, 90) < pow(158489320, 10) * pow(10, 8nat));
    } else {
        assert(pow(125892541, 10) * pow(10, 9nat) <= pow(10, 90));
        assert(pow(10, 90) < pow(125892542, 10) * pow(10, 9nat));
    }
}

/// The whole error table is exact: for every quality value `q`, the entry
/// `spec_error_scale(q)` is `floor(10^9 * 10^(-q/10))`, witnessed over the
/// integers by bracketing `10^90` between the tenth powers of the entry
/// and its successor, scaled back up by `10^q`.
pub proof fn lemma_error_scale_is_floor(q: int)
    requires
        0 <= q,
    ensures
        pow(spec_error_scale(q), 10) * pow(10, q as nat) <= pow(10, 90),
        pow(10, 90) < pow(spec_error_scale(q) + 1, 10) * pow(10, q as nat),
{
    let d = q / 10;
    let r = q % 10;
    let b = spec_error_base(r);
    let p = pow(10, d as nat);
    let e = spec_error_scale(q);
    lemma_error_base_is_floor(r);
    lemma_pow_positive(10, d as nat);
    lemma_pow_positive(10, r as nat);
    vstd::arithmetic::div_mod::lemma_fundamental_div_mod(b, p);
    assert(q == 10 * d + r);
    assert(pow(10, q as nat) == pow(p, 10) * pow(10, r as nat)) by {
        vstd::arithmetic::power::lemma_pow_multiplies(10, d as nat, 10);
        lemma_pow_adds(10, (10 * d) as nat, r as nat);
    }
    // lower bound: e * p <= b, so (e * p)^10 * 10^r <= b^10 * 10^r <= 10^90
    assert(e * p <= b);
    assert(e >= 0) by {
        vstd::arithmetic::div_mod::lemma_div_pos_is_pos(b, p);
    }
    if e == 0 {
        assert(pow(0, 10) == 0) by {
            reveal_with_fuel(pow, 2);
        }
        lemma_pow_positive(10, 90);
        assert(pow(e, 10) * pow(10, q as nat) == 0);
    } else {
        assert(pow(e * p, 10) <= pow(b, 10)) by {
            lemma_mul_inequality(1, e, p);
            crate::transform::lemma_pow_base_le(e * p, b, 10);
        }
        assert(pow(e * p, 10) == pow(e, 10) * pow(p, 10)) by {
            vstd::arithmetic::power::lemma_pow_distributes(e, p, 10);
        }
        assert(pow(e, 10) * (pow(p, 10) * pow(10, r as nat)) <= pow(b, 10) * pow(10, r as nat))
            by (nonlinear_arith)
            requires
                pow(e, 10) * pow(p, 10) <= pow(b, 10),
                pow(10, r as nat) >= 0,
        {
            lemma_mul_inequality(pow(e, 10) * pow(p, 10), pow(b, 10), pow(10, r as nat));
        }
    }
    // upper bound: b + 1 <= (e + 1) * p, so 10^90 < (b+1)^10 * 10^r
    //                                           <= ((e+1) * p)^10 * 10^r
    assert(b + 1 <= (e + 1) * p) by {
        assert(b == p * e + b % p);
        assert(b % p < p);
        assert((e + 1) * p == e * p + p) by (nonlinear_arith);
        assert(p * e == e * p);
    }
    assert(pow(b + 1, 10) <= pow((e + 1) * p, 10)) by {
        crate::transform::lemma_pow_base_le(b + 1, (e + 1) * p, 10);
    }
    assert(pow((e + 1) * p, 10) == pow(e + 1, 10) * pow(p, 10)) by {
        vstd::arithmetic::power::lemma_pow_distributes(e + 1, p, 10);
    }
    assert(pow(b + 1, 10) * pow(10, r as nat) <= pow(e + 1, 10) * (pow(p, 10) * pow(
        10,
        r as nat,
    ))) by (nonlinear_arith)
        requires
            pow(b + 1, 10) <= pow(e + 1, 10) * pow(p, 10),
            pow(10, r as nat) >= 0,
    {
        lemma_mul_inequality(pow(b + 1, 10), pow(e + 1, 10) * pow(p, 10), pow(10, r as nat));
    }
}

} // verus!
