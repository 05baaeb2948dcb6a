//! Coordinate transforms from the raw (length, identity) domain into the
//! fixed pixel grid.
//!
//! Lengths are compressed with `x = min(600, floor(100 * log10(len)))`,
//! which spans 600 pixels for lengths up to 1,000,000.  Identities are
//! given in hundredths of a percent (`identity_centi` in `[0, 10000]`).
//! The percent transform is `y = min(600, floor(20 * (100 - identity)))`
//! and the phred transform is `y = floor(15 * (40 - phred))` with
//! `phred = -10 * log10(1 - identity/100)` clamped to `[0, 40]`; both are
//! computed exactly over the integers.

use vstd::prelude::*;
use vstd::arithmetic::logarithm::log;
use vstd::arithmetic::logarithm::{lemma_log_is_ordered, lemma_log_nonnegative, lemma_log_pow};
use vstd::arithmetic::power::pow;
use vstd::arithmetic::power::{lemma_pow0, lemma_pow_positive, lemma_pow_multiplies};
use vstd::arithmetic::mul::lemma_mul_upper_bound;
use crate::bignum::{BigDec, lemma_pow10_small};

verus! {

/// Pixels per unit of the logical domain: one decade of length and one
/// percentage point of accuracy both map to a multiple of this factor.
pub const RESOLUTION_FACTOR: u64 = 10;

/// Ceiling of the length domain; longer reads are clamped to the last column.
pub const MAX_LENGTH: usize = 1000000;

/// Floor of the percent accuracy domain, in hundredths of a percent.
pub const MIN_IDENTITY_CENTI: u32 = 7000;

/// Full identity (100%), in hundredths of a percent.
pub const IDENTITY_FULL_CENTI: u32 = 10000;

/// Ceiling of the phred accuracy domain, in hundredths of a phred unit.
pub const MAX_PHRED_CENTI: u32 = 4000;

/// Largest pixel coordinate on either axis.
pub const AXIS_EXTENT: usize = 600;

/// Which accuracy transform the pipeline applies; carried as an explicit
/// strategy value through the configuration rather than a function pointer.
#[derive(Copy, Clone, Debug, PartialEq, Eq, Structural)]
pub enum AccuracyMode {
    Percent,
    Phred,
}

/// The accuracy row for an identity under the selected mode.
pub open spec fn spec_accuracy_row(identity_centi: int, mode: AccuracyMode) -> int {
    match mode {
        AccuracyMode::Percent => spec_transform_accuracy_percent(identity_centi),
        AccuracyMode::Phred => spec_transform_accuracy_phred(identity_centi),
    }
}

/// `min(600, floor(100 * log10(len)))`, written with the integer
/// (floor) logarithm: `floor(100 * log10(len)) == floor(log10(len^100))`.
pub open spec fn spec_transform_length(len: int) -> int {
    let scaled = log(10, pow(len, 100));
    if scaled > 600 {
        600int
    } else {
        scaled
    }
}

/// `min(600, floor(20 * (100 - identity)))` over identities in hundredths
/// of a percent: `floor(20 * (100 - c/100)) == (10000 - c) / 5`.
pub open spec fn spec_transform_accuracy_percent(identity_centi: int) -> int {
    let raw = (10000 - identity_centi) / 5;
    if raw > 600 {
        600int
    } else {
        raw
    }
}

/// Raising both bases to the same power preserves their order.
pub proof fn lemma_pow_base_le(a: int, b: int, e: nat)
    requires
        1 <= a <= b,
    ensures
        pow(a, e) <= pow(b, e),
    decreases e,
{
    if e == 0 {
        lemma_pow0(a);
        lemma_pow0(b);
    } else {
        lemma_pow_base_le(a, b, (e - 1) as nat);
        lemma_pow_positive(a, (e - 1) as nat);
        lemma_pow_positive(b, (e - 1) as nat);
        lemma_mul_upper_bound(a, b, pow(a, (e - 1) as nat), pow(b, (e - 1) as nat));
        reveal(pow);
        assert(pow(a, e) == a * pow(a, (e - 1) as nat));
        assert(pow(b, e) == b * pow(b, (e - 1) as nat));
    }
}

/// For any base `n` up to `cap`, the floor logarithm of `n^k` is at most
/// that of `cap^k`.
proof fn lemma_scaled_log_bound(n: int, k: nat, cap: int, dec: nat)
    requires
        1 <= n,
        n <= cap,
        pow(cap, k) == pow(10, dec),
    ensures
        log(10, pow(n, k)) <= dec,
        n == cap ==> log(10, pow(n, k)) == dec,
{
    lemma_pow_positive(n, k);
    lemma_pow_base_le(n, cap, k);
    lemma_log_is_ordered(10, pow(n, k), pow(cap, k));
    lemma_log_pow(10, dec);
}

/// Maps a read length onto the length axis: `min(600, floor(100 * log10(len)))`,
/// computed exactly by counting the decimal digits of `len^100` (lengths
/// above `MAX_LENGTH` saturate the axis first).
pub fn transform_length(seqlen: usize) -> (x: usize)
    requires
        seqlen >= 1,
    ensures
        x == spec_transform_length(seqlen as int),
        x <= 600,
{
    let n: u64 = if seqlen >= MAX_LENGTH {
        MAX_LENGTH as u64
    } else {
        seqlen as u64
    };
    let big = BigDec::power_of_small(n, 100);
    let r = big.floor_log10();
    proof {
        lemma_pow10_small();
        assert(pow(1000000, 100nat) == pow(10, 600nat)) by {
            lemma_pow_multiplies(10, 6, 100);
        }
        lemma_scaled_log_bound(n as int, 100, 1000000, 600);
        if seqlen > 1000000 {
            lemma_pow_positive(1000000, 100);
            lemma_pow_base_le(1000000, seqlen as int, 100);
            lemma_log_is_ordered(10, pow(1000000, 100nat), pow(seqlen as int, 100nat));
            lemma_log_pow(10, 600);
        }
    }
    r as usize
}

/// The length transform is monotonically nondecreasing: a longer read never
/// lands on a smaller column.
pub proof fn lemma_transform_length_monotonic(l1: int, l2: int)
    requires
        1 <= l1 <= l2,
    ensures
        spec_transform_length(l1) <= spec_transform_length(l2),
{
    lemma_pow_positive(l1, 100);
    lemma_pow_base_le(l1, l2, 100);
    lemma_log_is_ordered(10, pow(l1, 100), pow(l2, 100));
}

/// The length transform stays on the axis, and saturates at the last
/// column for every length from `MAX_LENGTH` up.
pub proof fn lemma_transform_length_range(len: int)
    requires
        len >= 1,
    ensures
        0 <= spec_transform_length(len) <= 600,
        len >= 1000000 ==> spec_transform_length(len) == 600,
{
    lemma_pow_positive(len, 100);
    lemma_log_nonnegative(10, pow(len, 100));
    if len >= 1000000 {
        lemma_pow10_small();
        assert(pow(1000000, 100nat) == pow(10, 600nat)) by {
            lemma_pow_multiplies(10, 6, 100);
        }
        lemma_pow_positive(1000000, 100);
        lemma_pow_base_le(1000000, len, 100);
        lemma_log_is_ordered(10, pow(1000000, 100nat), pow(len, 100nat));
        lemma_log_pow(10, 600);
    }
}

/// Maps an identity in hundredths of a percent onto the accuracy axis:
/// perfect accuracy lands on row 0, the configured minimum identity (70%)
/// and anything below it on row 600.
pub fn transform_accuracy_percent(identity: u32) -> (y: usize)
    requires
        identity <= 10000,
    ensures
        y == spec_transform_accuracy_percent(identity as int),
        y <= 600,
{
    let raw = ((IDENTITY_FULL_CENTI - identity) / 5) as usize;
    if raw > AXIS_EXTENT {
        AXIS_EXTENT
    } else {
        raw
    }
}

/// `floor(15 * (40 - phred))` over identities in hundredths of a percent.
/// With `e = 10000 - c` (the error mass in hundredths of a percent),
/// `phred = -10 * log10(e / 10000)` and the whole expression collapses to
/// `floor(150 * log10(e))`; full identity pins the (clamped) phred score
/// at its maximum, hence row 0.
pub open spec fn spec_transform_accuracy_phred(identity_centi: int) -> int {
    if identity_centi >= 10000 {
        0int
    } else {
        log(10, pow(10000 - identity_centi, 150))
    }
}

/// The phred score times 100: `ceil(1000 * log10(e))` subtracted from the
/// maximum score of 40.00, so `spec_phred_centi(c) == floor(100 * phred(c))`.
pub open spec fn spec_phred_centi(identity_centi: int) -> int {
    let m = pow(10000 - identity_centi, 1000);
    let f = log(10, m);
    if m == pow(10, f as nat) {
        4000 - f
    } else {
        4000 - (f + 1)
    }
}

/// Maps an identity in hundredths of a percent onto the accuracy axis in
/// phred mode: the best reads (phred 40 and up, identity 99.99% and up)
/// land on row 0, identity 0 on row 600.
pub fn transform_accuracy_phred(identity: u32) -> (y: usize)
    requires
        identity <= 10000,
    ensures
        y == spec_transform_accuracy_phred(identity as int),
        y <= 600,
{
    if identity >= IDENTITY_FULL_CENTI {
        return 0;
    }
    let e = (IDENTITY_FULL_CENTI - identity) as u64;
    let big = BigDec::power_of_small(e, 150);
    let r = big.floor_log10();
    proof {
        lemma_pow10_small();
        assert(pow(10000, 150nat) == pow(10, 600nat)) by {
            lemma_pow_multiplies(10, 4, 150);
        }
        lemma_scaled_log_bound(e as int, 150, 10000, 600);
    }
    r as usize
}

/// Converts an identity in hundredths of a percent to a phred score in
/// hundredths: `floor(100 * (-10 * log10(1 - identity/100)))`, computed
/// exactly as `4000 - ceil(1000 * log10(10000 - identity_centi))`.
pub fn phred_centi(identity: u32) -> (p: u32)
    requires
        identity <= 9999,
    ensures
        p == spec_phred_centi(identity as int),
        p <= 4000,
{
    let e = (IDENTITY_FULL_CENTI - identity) as u64;
    let big = BigDec::power_of_small(e, 1000);
    let f = big.floor_log10();
    let exact = big.is_ten_power();
    proof {
        lemma_pow10_small();
        assert(pow(10000, 1000nat) == pow(10, 4000nat)) by {
            lemma_pow_multiplies(10, 4, 1000);
        }
        lemma_scaled_log_bound(e as int, 1000, 10000, 4000);
        if !exact && f == 4000 {
            // at the top of the range the power is hit exactly
            lemma_pow_positive(e as int, 1000);
            lemma_pow_base_le(e as int, 10000, 1000);
            assert(pow(10, f as nat) <= big.val());
            assert(big.val() == pow(10, 4000nat));
            assert(false);
        }
    }
    if exact {
        MAX_PHRED_CENTI - (f as u32)
    } else {
        MAX_PHRED_CENTI - (f as u32 + 1)
    }
}

/// The percent transform is monotonically nonincreasing in the identity:
/// a better accuracy never lands on a larger row.
pub proof fn lemma_transform_accuracy_percent_monotonic(c1: int, c2: int)
    requires
        0 <= c1 <= c2 <= 10000,
    ensures
        spec_transform_accuracy_percent(c2) <= spec_transform_accuracy_percent(c1),
{
    vstd::arithmetic::div_mod::lemma_div_is_ordered(10000 - c2, 10000 - c1, 5);
}

/// The percent transform spans the whole axis: the configured minimum
/// identity lands on the last row and full identity on row zero.
pub proof fn lemma_transform_accuracy_percent_endpoints()
    ensures
        spec_transform_accuracy_percent(7000) == 600,
        spec_transform_accuracy_percent(10000) == 0,
{
}

} // verus!
