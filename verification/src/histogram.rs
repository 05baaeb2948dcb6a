//! Histogram accumulation: folding a stream of per-read samples into
//! per-pixel counts on the 601 x 601 grid, and the optional log2
//! normalization pass.

use vstd::prelude::*;
use vstd::arithmetic::logarithm::log;
use vstd::arithmetic::logarithm::{lemma_log0, lemma_log_s, lemma_log_nonnegative};
use vstd::arithmetic::power::pow;
use vstd::arithmetic::power::lemma_pow_increases;
use vstd::arithmetic::power2::{lemma_pow2, lemma2_to64};
use crate::HeatmapError;
use crate::bignum::lemma_log_sandwich;
use crate::identity::{RecordInfo, identity_computable, spec_identity_centi, spec_ubam_accuracy};
use crate::identity::{gap_compressed_identity, ubam_accuracy};
use crate::transform::{AccuracyMode, spec_accuracy_row, spec_transform_length};
use crate::transform::{transform_accuracy_percent, transform_accuracy_phred, transform_length};

verus! {

/// Side length of the pixel grid: the axis extent plus one.
pub const GRID: usize = 601;

/// Number of bins on the grid.
pub const NUM_BINS: usize = 601 * 601;

/// Sum of a sequence of counts.
pub open spec fn seq_sum(s: Seq<u64>) -> int
    decreases s.len(),
{
    if s.len() == 0 {
        0
    } else {
        seq_sum(s.drop_last()) + s.last()
    }
}

/// Largest element of a sequence of counts (zero when empty).
pub open spec fn seq_max(s: Seq<u64>) -> int
    decreases s.len(),
{
    if s.len() == 0 {
        0
    } else if s.last() as int >= seq_max(s.drop_last()) {
        s.last() as int
    } else {
        seq_max(s.drop_last())
    }
}

pub proof fn lemma_seq_sum_nonneg(s: Seq<u64>)
    ensures
        seq_sum(s) >= 0,
    decreases s.len(),
{
    if s.len() > 0 {
        lemma_seq_sum_nonneg(s.drop_last());
    }
}

/// Replacing one element shifts the sum by the difference.
pub proof fn lemma_seq_sum_update(s: Seq<u64>, i: int, v: u64)
    requires
        0 <= i < s.len(),
    ensures
        seq_sum(s.update(i, v)) == seq_sum(s) - s[i] + v,
    decreases s.len(),
{
    if i == s.len() - 1 {
        assert(s.update(i, v).drop_last() =~= s.drop_last());
        assert(s.update(i, v).last() == v);
    } else {
        assert(s.update(i, v).drop_last() =~= s.drop_last().update(i, v));
        assert(s.update(i, v).last() == s.last());
        lemma_seq_sum_update(s.drop_last(), i, v);
    }
}

/// Every element is bounded by the maximum.
pub proof fn lemma_seq_max_ge(s: Seq<u64>, i: int)
    requires
        0 <= i < s.len(),
    ensures
        s[i] as int <= seq_max(s),
    decreases s.len(),
{
    if i < s.len() - 1 {
        lemma_seq_max_ge(s.drop_last(), i);
    }
}

/// A nonzero maximum is attained by some element.
pub proof fn lemma_seq_max_attained(s: Seq<u64>)
    requires
        s.len() > 0,
    ensures
        exists|i: int| 0 <= i < s.len() && s[i] as int == seq_max(s),
    decreases s.len(),
{
    if s.last() as int >= seq_max(s.drop_last()) {
        assert(s[s.len() - 1] as int == seq_max(s));
    } else {
        lemma_seq_max_attained(s.drop_last());
        let i = choose|i: int| 0 <= i < s.len() - 1 && s.drop_last()[i] as int == seq_max(
            s.drop_last(),
        );
        assert(s[i] as int == seq_max(s));
    }
}

/// The sum is zero exactly when the maximum is: both say all counts vanish.
pub proof fn lemma_seq_sum_zero_iff_max_zero(s: Seq<u64>)
    ensures
        seq_sum(s) == 0 <==> seq_max(s) == 0,
    decreases s.len(),
{
    if s.len() > 0 {
        lemma_seq_sum_zero_iff_max_zero(s.drop_last());
        lemma_seq_sum_nonneg(s.drop_last());
        if s.len() > 0 {
            lemma_seq_max_nonneg(s.drop_last());
        }
    }
}

pub proof fn lemma_seq_max_nonneg(s: Seq<u64>)
    ensures
        seq_max(s) >= 0,
    decreases s.len(),
{
    if s.len() > 0 {
        lemma_seq_max_nonneg(s.drop_last());
    }
}

/// A sparse table of per-bin sample counts for one dataset, held densely
/// over the whole grid (absent bins are zero), together with the running
/// total of all counts.
#[derive(Debug)]
pub struct Histogram {
    counts: Vec<u64>,
    total: u64,
}

impl Histogram {
    /// The count of one bin.
    pub closed spec fn spec_count(self, x: int, y: int) -> int {
        self.counts@[y * 601 + x] as int
    }

    /// Sum of all bin counts.
    pub closed spec fn total_count(self) -> int {
        self.total as int
    }

    /// Largest bin count.
    pub closed spec fn max_spec(self) -> int {
        seq_max(self.counts@)
    }

    /// One cell per grid bin, and the cached total equals the cell sum.
    pub closed spec fn wf(self) -> bool {
        &&& self.counts@.len() == 601 * 601
        &&& self.total as int == seq_sum(self.counts@)
    }

    /// The maximum bounds every bin, and a positive total is attained
    /// somewhere.
    pub proof fn lemma_max_properties(self)
        requires
            self.wf(),
        ensures
            forall|x: int, y: int|
                0 <= x < 601 && 0 <= y < 601 ==> self.spec_count(x, y) <= self.max_spec(),
            self.total_count() > 0 ==> exists|x: int, y: int|
                0 <= x < 601 && 0 <= y < 601 && self.spec_count(x, y) == self.max_spec(),
            self.total_count() == 0 <==> self.max_spec() == 0,
            self.max_spec() >= 0,
    {
        assert forall|x: int, y: int|
            0 <= x < 601 && 0 <= y < 601 implies self.spec_count(x, y) <= self.max_spec() by {
            lemma_bin_index_bounds(x, y);
            lemma_seq_max_ge(self.counts@, y * 601 + x);
        }
        lemma_seq_sum_zero_iff_max_zero(self.counts@);
        lemma_seq_max_nonneg(self.counts@);
        if self.total_count() > 0 {
            lemma_seq_max_attained(self.counts@);
            let i = choose|i: int|
                0 <= i < self.counts@.len() && self.counts@[i] as int == seq_max(self.counts@);
            let y = i / 601;
            let x = i % 601;
            assert(y * 601 + x == i);
            assert(0 <= x < 601 && 0 <= y < 601);
            assert(self.spec_count(x, y) == self.max_spec());
        }
    }

    /// An empty grid.
    pub fn new() -> (h: Histogram)
        ensures
            h.wf(),
            h.total_count() == 0,
            forall|x: int, y: int| 0 <= x < 601 && 0 <= y < 601 ==> h.spec_count(x, y) == 0,
    {
        let mut counts: Vec<u64> = Vec::new();
        let mut i: usize = 0;
        proof {
            assert(seq_sum(counts@) == 0);
        }
        while i < 601 * 601
            invariant
                i <= 601 * 601,
                counts@.len() == i,
                seq_sum(counts@) == 0,
                forall|j: int| 0 <= j < i ==> counts@[j] == 0,
            decreases 601 * 601 - i,
        {
            let ghost pre = counts@;
            counts.push(0);
            proof {
                assert(counts@.drop_last() =~= pre);
            }
            i = i + 1;
        }
        Histogram { counts, total: 0 }
    }

    /// Exposes the cached total.
    pub fn total(&self) -> (t: u64)
        ensures
            t as int == self.total_count(),
    {
        self.total
    }

    /// Reads one bin.
    pub fn count_at(&self, x: usize, y: usize) -> (c: u64)
        requires
            self.wf(),
            x < 601,
            y < 601,
        ensures
            c as int == self.spec_count(x as int, y as int),
    {
        proof {
            lemma_bin_index_bounds(x as int, y as int);
        }
        self.counts[y * 601 + x]
    }

    /// Largest bin count of this dataset.
    pub fn max_count(&self) -> (m: u64)
        requires
            self.wf(),
        ensures
            m as int == self.max_spec(),
    {
        let mut m: u64 = 0;
        let mut i: usize = 0;
        proof {
            assert(self.counts@.take(0) =~= Seq::<u64>::empty());
        }
        while i < 601 * 601
            invariant
                i <= 601 * 601,
                self.wf(),
                self.counts@.len() == 601 * 601,
                m as int == seq_max(self.counts@.take(i as int)),
            decreases 601 * 601 - i,
        {
            proof {
                assert(self.counts@.take(i + 1).drop_last() =~= self.counts@.take(i as int));
                assert(self.counts@.take(i + 1).last() == self.counts@[i as int]);
            }
            let c = self.counts[i];
            if c > m {
                m = c;
            }
            i = i + 1;
        }
        proof {
            assert(self.counts@.take(601int * 601) =~= self.counts@);
        }
        m
    }

    /// Adds one sample to a bin.
    pub fn increment(&mut self, x: usize, y: usize)
        requires
            old(self).wf(),
            x < 601,
            y < 601,
            old(self).total_count() < 0xffffffffffffffff,
        ensures
            final(self).wf(),
            final(self).total_count() == old(self).total_count() + 1,
            final(self).spec_count(x as int, y as int) == old(self).spec_count(x as int, y as int)
                + 1,
            forall|x2: int, y2: int|
                0 <= x2 < 601 && 0 <= y2 < 601 && !(x2 == x as int && y2 == y as int)
                    ==> final(self).spec_count(x2, y2) == old(self).spec_count(x2, y2),
    {
        let idx = y * 601 + x;
        proof {
            lemma_bin_index_bounds(x as int, y as int);
            lemma_seq_sum_nonneg(self.counts@);
            lemma_count_le_sum(self.counts@, idx as int);
        }
        let c = self.counts[idx];
        self.counts.set(idx, c + 1);
        self.total = self.total + 1;
        proof {
            lemma_seq_sum_update(old(self).counts@, idx as int, (c + 1) as u64);
            assert forall|x2: int, y2: int|
                0 <= x2 < 601 && 0 <= y2 < 601 && !(x2 == x as int && y2 == y as int)
                    implies final(self).spec_count(x2, y2) == old(self).spec_count(x2, y2) by {
                lemma_bin_index_bounds(x2, y2);
                if y2 * 601 + x2 == idx as int {
                    lemma_bin_index_injective(x as int, y as int, x2, y2);
                }
            }
        }
    }
}

/// Whether the fallback chain produces an identity for this record under
/// the chosen source (quality-derived accuracy always succeeds).
pub open spec fn sample_ok(rec: RecordInfo, ubam: bool) -> bool {
    ubam || identity_computable(rec)
}

/// The identity one record contributes, in hundredths of a percent.
pub open spec fn spec_sample_identity(rec: RecordInfo, ubam: bool) -> int {
    if ubam {
        spec_ubam_accuracy(rec.base_qualities@)
    } else {
        spec_identity_centi(rec)
    }
}

/// The pixel bin one record lands in: its length column (a zero-length
/// record counts as length one, the bottom of the log axis) and its
/// accuracy row under the selected mode.
pub open spec fn spec_sample_bin(rec: RecordInfo, mode: AccuracyMode, ubam: bool) -> (int, int) {
    let len = if rec.seq_len >= 1 {
        rec.seq_len as int
    } else {
        1int
    };
    (spec_transform_length(len), spec_accuracy_row(spec_sample_identity(rec, ubam), mode))
}

/// How many of the first `upto` records land in bin `(x, y)`.
pub open spec fn spec_bin_count(
    records: Seq<RecordInfo>,
    mode: AccuracyMode,
    ubam: bool,
    x: int,
    y: int,
    upto: int,
) -> int
    decreases upto,
{
    if upto <= 0 {
        0
    } else {
        spec_bin_count(records, mode, ubam, x, y, upto - 1) + if spec_sample_bin(
            records[upto - 1],
            mode,
            ubam,
        ) == (x, y) {
            1int
        } else {
            0int
        }
    }
}

/// Folds one dataset's records into a histogram: every record lands in
/// exactly one bin, so the total equals the number of records.  Fails with
/// `DataError` exactly when there are no records (nothing to plot), and
/// with `ParseError` exactly when some record's identity cannot be
/// estimated.
pub fn build_histogram(records: &Vec<RecordInfo>, mode: AccuracyMode, ubam: bool) -> (r: Result<
    Histogram,
    HeatmapError,
>)
    requires
        forall|i: int| 0 <= i < records@.len() ==> records@[i].cigar@.len() < 0x100000000,
    ensures
        match r {
            Ok(h) => {
                &&& records@.len() > 0
                &&& forall|i: int| 0 <= i < records@.len() ==> sample_ok(records@[i], ubam)
                &&& h.wf()
                &&& h.total_count() == records@.len()
                &&& forall|x: int, y: int|
                    0 <= x < 601 && 0 <= y < 601 ==> h.spec_count(x, y) == spec_bin_count(
                        records@,
                        mode,
                        ubam,
                        x,
                        y,
                        records@.len() as int,
                    )
            },
            Err(e) => {
                &&& (e == HeatmapError::DataError <==> records@.len() == 0)
                &&& (e == HeatmapError::ParseError <==> records@.len() > 0 && exists|i: int|
                    0 <= i < records@.len() && !sample_ok(records@[i], ubam))
                &&& (e == HeatmapError::DataError || e == HeatmapError::ParseError)
            },
        },
{
    if records.len() == 0 {
        return Err(HeatmapError::DataError);
    }
    let n = records.len();
    let mut hist = Histogram::new();
    let mut i: usize = 0;
    while i < n
        invariant
            i <= n,
            n == records@.len(),
            forall|j: int| 0 <= j < records@.len() ==> records@[j].cigar@.len() < 0x100000000,
            hist.wf(),
            hist.total_count() == i,
            forall|j: int| 0 <= j < i ==> sample_ok(records@[j], ubam),
            forall|x: int, y: int|
                0 <= x < 601 && 0 <= y < 601 ==> hist.spec_count(x, y) == spec_bin_count(
                    records@,
                    mode,
                    ubam,
                    x,
                    y,
                    i as int,
                ),
        decreases n - i,
    {
        let rec = &records[i];
        let len = if rec.seq_len >= 1 {
            rec.seq_len
        } else {
            1
        };
        let x = transform_length(len);
        let identity: u32 = if ubam {
            ubam_accuracy(rec)
        } else {
            match gap_compressed_identity(rec) {
                Ok(c) => c,
                Err(_) => {
                    return Err(HeatmapError::ParseError);
                },
            }
        };
        let y = match mode {
            AccuracyMode::Percent => transform_accuracy_percent(identity),
            AccuracyMode::Phred => transform_accuracy_phred(identity),
        };
        proof {
            assert(spec_sample_bin(records@[i as int], mode, ubam) == (x as int, y as int));
        }
        hist.increment(x, y);
        i = i + 1;
    }
    Ok(hist)
}

/// Replaces every count `c >= 1` with `floor(log2(c))` (empty bins stay
/// empty); a count of 1 therefore normalizes to 0 and a count of 8 to 3.
pub open spec fn spec_log2_count(c: int) -> int {
    if c <= 0 {
        0
    } else {
        log(2, c)
    }
}

/// `floor(log2(c))` by repeated halving.
fn floor_log2(c: u64) -> (d: u64)
    requires
        c >= 1,
    ensures
        d as int == log(2, c as int),
        d <= 63,
{
    let mut t = c;
    let mut d: u64 = 0;
    proof {
        lemma_log_nonnegative(2, c as int);
        assert(log(2, c as int) <= 63) by {
            lemma_log_sandwich(2, c as int);
            lemma_pow2(64);
            lemma2_to64();
            if log(2, c as int) > 63 {
                lemma_pow_increases(2, 64nat, log(2, c as int) as nat);
            }
        }
    }
    while t >= 2
        invariant
            t >= 1,
            d + log(2, t as int) == log(2, c as int),
            log(2, t as int) >= 0,
            log(2, c as int) <= 63,
        decreases t,
    {
        proof {
            lemma_log_s(2, t as int);
            vstd::arithmetic::div_mod::lemma_div_pos_is_pos(t as int, 2);
            lemma_log_nonnegative(2, t as int / 2);
        }
        t = t / 2;
        d = d + 1;
    }
    proof {
        lemma_log0(2, t as int);
    }
    d
}

/// The optional normalization pass: log2-compresses every populated bin
/// of the histogram, which flattens the dynamic range of dense regions.
pub fn log_transform_hashmap(hashmap: Histogram) -> (r: Histogram)
    requires
        hashmap.wf(),
    ensures
        r.wf(),
        forall|x: int, y: int|
            0 <= x < 601 && 0 <= y < 601 ==> r.spec_count(x, y) == spec_log2_count(
                hashmap.spec_count(x, y),
            ),
{
    let mut counts: Vec<u64> = Vec::new();
    let mut total: u64 = 0;
    let mut i: usize = 0;
    while i < 601 * 601
        invariant
            i <= 601 * 601,
            hashmap.wf(),
            counts@.len() == i,
            total as int == seq_sum(counts@),
            total <= i * 63,
            forall|j: int| 0 <= j < i ==> counts@[j] as int == spec_log2_count(
                hashmap.counts@[j] as int,
            ),
        decreases 601 * 601 - i,
    {
        let c = hashmap.counts[i];
        let v: u64 = if c == 0 {
            0
        } else {
            floor_log2(c)
        };
        let ghost pre = counts@;
        counts.push(v);
        total = total + v;
        proof {
            assert(counts@.drop_last() =~= pre);
        }
        i = i + 1;
    }
    Histogram { counts, total }
}

/// Bin coordinates address one cell of the flat grid vector.
pub proof fn lemma_bin_index_bounds(x: int, y: int)
    requires
        0 <= x < 601,
        0 <= y < 601,
    ensures
        0 <= y * 601 + x < 601 * 601,
{
    assert(y * 601 <= 600 * 601) by (nonlinear_arith)
        requires y <= 600,
    {}
    assert(y * 601 >= 0) by (nonlinear_arith)
        requires y >= 0,
    {}
}

/// Distinct bins occupy distinct cells.
pub proof fn lemma_bin_index_injective(x1: int, y1: int, x2: int, y2: int)
    requires
        0 <= x1 < 601,
        0 <= y1 < 601,
        0 <= x2 < 601,
        0 <= y2 < 601,
        y1 * 601 + x1 == y2 * 601 + x2,
    ensures
        x1 == x2 && y1 == y2,
{
    assert((y1 - y2) * 601 == x2 - x1) by (nonlinear_arith)
        requires y1 * 601 + x1 == y2 * 601 + x2,
    {}
    if y1 != y2 {
        assert((y1 - y2) * 601 >= 601 || (y1 - y2) * 601 <= -601) by (nonlinear_arith)
            requires y1 != y2,
        {}
    }
}

/// Each count contributes to the sum, so no count exceeds it.
proof fn lemma_count_le_sum(s: Seq<u64>, i: int)
    requires
        0 <= i < s.len(),
    ensures
        s[i] as int <= seq_sum(s),
    decreases s.len(),
{
    lemma_seq_sum_nonneg(s.drop_last());
    if i < s.len() - 1 {
        lemma_count_le_sum(s.drop_last(), i);
    }
}

} // verus!
