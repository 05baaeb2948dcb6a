//! Exact unsigned big integers in base 10^9, just large enough to compute
//! floor logarithms of powers: `floor(k * log10(n))` equals the number of
//! decimal digits of `n^k` minus one, so the coordinate transforms obtain
//! their log-scaled pixel coordinates from `n^k` held exactly in limbs.

use vstd::prelude::*;
use vstd::arithmetic::logarithm::log;
use vstd::arithmetic::power::pow;
use vstd::arithmetic::mul::{
    lemma_mul_inequality,
    lemma_mul_strictly_positive,
    lemma_mul_left_inequality,
    lemma_mul_is_distributive_add,
    lemma_mul_is_distributive_add_other_way,
};
use vstd::arithmetic::div_mod::{
    lemma_fundamental_div_mod,
    lemma_div_pos_is_pos,
};
use vstd::arithmetic::power::{
    lemma_pow0,
    lemma_pow1,
    lemma_pow_positive,
    lemma_pow_adds,
    lemma_pow_multiplies,
    lemma_pow_increases,
    lemma_pow_strictly_increases_converse,
};
use vstd::arithmetic::logarithm::{
    lemma_log0,
    lemma_log_s,
    lemma_log_nonnegative,
    lemma_log_is_ordered,
    lemma_log_pow,
};

verus! {

/// Limb radix: each limb holds nine decimal digits.
pub const LIMB_RADIX: u64 = 1000000000;

/// Value of a little-endian limb sequence in base 10^9.
pub open spec fn limbs_val(s: Seq<u64>) -> int
    decreases s.len(),
{
    if s.len() == 0 {
        0
    } else {
        limbs_val(s.drop_last()) + s.last() * pow(1000000000, (s.len() - 1) as nat)
    }
}

/// Every limb sequence has a nonnegative value.
pub proof fn lemma_limbs_val_nonneg(s: Seq<u64>)
    ensures
        limbs_val(s) >= 0,
    decreases s.len(),
{
    if s.len() > 0 {
        lemma_limbs_val_nonneg(s.drop_last());
        lemma_pow_positive(1000000000, (s.len() - 1) as nat);
        lemma_mul_inequality(0, s.last() as int, pow(1000000000, (s.len() - 1) as nat));
    }
}

/// A sequence of in-range limbs is worth less than radix^len.
pub proof fn lemma_limbs_val_upper(s: Seq<u64>)
    requires
        forall|i: int| 0 <= i < s.len() ==> s[i] < 1000000000,
    ensures
        limbs_val(s) < pow(1000000000, s.len()),
    decreases s.len(),
{
    if s.len() == 0 {
        lemma_pow0(1000000000);
    } else {
        let p = pow(1000000000, (s.len() - 1) as nat);
        lemma_limbs_val_upper(s.drop_last());
        lemma_pow_positive(1000000000, (s.len() - 1) as nat);
        lemma_mul_inequality(s.last() as int, 999999999, p);
        assert(limbs_val(s) < p + 999999999 * p);
        assert(p + 999999999 * p == 1000000000 * p) by {
            lemma_mul_is_distributive_add_other_way(p, 1, 999999999);
        }
        assert(pow(1000000000, s.len()) == 1000000000 * p) by {
            lemma_pow_adds(1000000000, 1, (s.len() - 1) as nat);
            lemma_pow1(1000000000);
        }
    }
}

/// The value is at least the top limb times its place value.
pub proof fn lemma_limbs_val_lower(s: Seq<u64>)
    requires
        s.len() >= 1,
    ensures
        limbs_val(s) >= s.last() * pow(1000000000, (s.len() - 1) as nat),
{
    lemma_limbs_val_nonneg(s.drop_last());
}

/// A sequence of limbs is worth zero exactly when all limbs are zero.
pub proof fn lemma_limbs_val_zero_iff(s: Seq<u64>)
    ensures
        limbs_val(s) == 0 <==> (forall|i: int| 0 <= i < s.len() ==> s[i] == 0),
    decreases s.len(),
{
    if s.len() > 0 {
        lemma_limbs_val_zero_iff(s.drop_last());
        lemma_limbs_val_nonneg(s.drop_last());
        lemma_pow_positive(1000000000, (s.len() - 1) as nat);
        if s.last() != 0 {
            lemma_mul_strictly_positive(s.last() as int, pow(1000000000, (s.len() - 1) as nat));
            assert(limbs_val(s) != 0);
        } else {
            assert(s.last() * pow(1000000000, (s.len() - 1) as nat) == 0);
            assert(forall|i: int| 0 <= i < s.len() - 1 ==> s[i] == s.drop_last()[i]);
            if limbs_val(s) == 0 {
                assert(forall|i: int| 0 <= i < s.len() ==> s[i] == 0) by {
                    assert(forall|i: int| 0 <= i < s.len() - 1 ==> s[i] == s.drop_last()[i] && s.drop_last()[i] == 0);
                }
            }
        }
    }
}

/// Appending one limb adds its place value.
proof fn lemma_limbs_val_take_step(s: Seq<u64>, i: int)
    requires
        0 <= i < s.len(),
    ensures
        limbs_val(s.take(i + 1)) == limbs_val(s.take(i)) + s[i] * pow(1000000000, i as nat),
{
    assert(s.take(i + 1).drop_last() =~= s.take(i));
    assert(s.take(i + 1).last() == s[i]);
}

/// Small powers of ten, written out once so other proofs can cite them.
pub proof fn lemma_pow10_small()
    ensures
        pow(10, 0nat) == 1,
        pow(10, 1nat) == 10,
        pow(10, 2nat) == 100,
        pow(10, 3nat) == 1000,
        pow(10, 4nat) == 10000,
        pow(10, 5nat) == 100000,
        pow(10, 6nat) == 1000000,
        pow(10, 7nat) == 10000000,
        pow(10, 8nat) == 100000000,
        pow(10, 9nat) == 1000000000,
        pow(10, 10nat) == 10000000000,
{
    reveal_with_fuel(pow, 12);
}

/// The floor logarithm brackets its argument between two powers of the base.
pub proof fn lemma_log_sandwich(b: int, m: int)
    requires
        b > 1,
        m >= 1,
    ensures
        log(b, m) >= 0,
        pow(b, log(b, m) as nat) <= m,
        m < pow(b, (log(b, m) + 1) as nat),
    decreases m,
{
    lemma_log_nonnegative(b, m);
    if m < b {
        lemma_log0(b, m);
        lemma_pow0(b);
        lemma_pow1(b);
    } else {
        lemma_log_s(b, m);
        lemma_div_pos_is_pos(m, b);
        lemma_fundamental_div_mod(m, b);
        let q = m / b;
        lemma_log_sandwich(b, q);
        let lq = log(b, q);
        assert(pow(b, (lq + 1) as nat) == b * pow(b, lq as nat)) by {
            lemma_pow_adds(b, 1, lq as nat);
            lemma_pow1(b);
        }
        assert(pow(b, (lq + 2) as nat) == b * pow(b, (lq + 1) as nat)) by {
            lemma_pow_adds(b, 1, (lq + 1) as nat);
            lemma_pow1(b);
        }
        // lower: b^(lq+1) = b * b^lq <= b * q <= m
        lemma_mul_left_inequality(b, pow(b, lq as nat), q);
        // upper: q + 1 <= b^(lq+1), so m < b * (q + 1) <= b^(lq+2)
        lemma_mul_left_inequality(b, q + 1, pow(b, (lq + 1) as nat));
        assert(m < b * (q + 1)) by {
            lemma_mul_is_distributive_add(b, q, 1);
        }
    }
}

/// The decimal floor logarithm brackets its argument between two powers
/// of ten.
pub proof fn lemma_log10_sandwich(m: int)
    requires
        m >= 1,
    ensures
        log(10, m) >= 0,
        pow(10, log(10, m) as nat) <= m,
        m < pow(10, (log(10, m) + 1) as nat),
{
    lemma_log_sandwich(10, m);
}

/// A value bracketed between two adjacent powers has that floor logarithm.
pub proof fn lemma_log_from_bounds(b: int, m: int, a: int)
    requires
        b > 1,
        a >= 0,
        pow(b, a as nat) <= m,
        m < pow(b, (a + 1) as nat),
    ensures
        log(b, m) == a,
{
    lemma_pow_positive(b, a as nat);
    lemma_log_sandwich(b, m);
    let l = log(b, m);
    if l < a {
        lemma_pow_increases(b as nat, (l + 1) as nat, a as nat);
        assert(false);
    }
    if l > a {
        lemma_pow_increases(b as nat, (a + 1) as nat, l as nat);
        assert(false);
    }
}

/// A value bracketed between 10^a and 10^(a+1) has decimal floor logarithm a.
pub proof fn lemma_log10_from_bounds(m: int, a: int)
    requires
        a >= 0,
        pow(10, a as nat) <= m,
        m < pow(10, (a + 1) as nat),
    ensures
        log(10, m) == a,
{
    lemma_log_from_bounds(10, m, a);
}

/// An exact nonnegative integer of arbitrary size, stored as little-endian
/// limbs in base 10^9.  Well-formed values are at least 1 (the top limb is
/// nonzero) so that their decimal logarithm is defined.
pub struct BigDec {
    limbs: Vec<u64>,
}

impl BigDec {
    /// The integer this limb vector stands for.
    pub closed spec fn val(self) -> int {
        limbs_val(self.limbs@)
    }

    /// Number of limbs; bounded by callers to keep index arithmetic small.
    pub closed spec fn limb_count(self) -> nat {
        self.limbs@.len()
    }

    /// All limbs in range, at least one limb, top limb nonzero.
    pub closed spec fn wf(self) -> bool {
        &&& self.limbs@.len() >= 1
        &&& (forall|i: int| 0 <= i < self.limbs@.len() ==> self.limbs@[i] < 1000000000)
        &&& self.limbs@.last() != 0
    }

    /// A single-limb big integer.
    pub fn new_small(v: u64) -> (r: BigDec)
        requires
            1 <= v < 1000000000,
        ensures
            r.wf(),
            r.val() == v,
            r.limb_count() == 1,
    {
        let mut limbs: Vec<u64> = Vec::new();
        limbs.push(v);
        proof {
            assert(limbs@.drop_last() =~= Seq::<u64>::empty());
            assert(limbs_val(Seq::<u64>::empty()) == 0);
            lemma_pow0(1000000000);
        }
        BigDec { limbs }
    }

    /// The decimal floor logarithm: nine digits per full limb plus the
    /// digits of the top limb.
    pub fn floor_log10(&self) -> (r: u64)
        requires
            self.wf(),
            self.limb_count() <= 100000,
        ensures
            r == log(10, self.val()),
            pow(10, r as nat) <= self.val() < pow(10, (r + 1) as nat),
    {
        let n = self.limbs.len();
        let top = self.limbs[n - 1];
        let mut t = top;
        let mut d: u64 = 0;
        proof {
            lemma_log_nonnegative(10, top as int);
            assert(log(10, top as int) <= 8) by {
                lemma_log10_sandwich(top as int);
                lemma_pow10_small();
                lemma_pow_strictly_increases_converse(10, log(10, top as int) as nat, 9nat);
            }
        }
        while t >= 10
            invariant
                t >= 1,
                d + log(10, t as int) == log(10, top as int),
                log(10, t as int) >= 0,
                log(10, top as int) <= 8,
            decreases t,
        {
            proof {
                lemma_log_s(10, t as int);
                lemma_div_pos_is_pos(t as int, 10);
                lemma_log_nonnegative(10, t as int / 10);
            }
            t = t / 10;
            d = d + 1;
        }
        proof {
            lemma_log0(10, t as int);
            assert(d == log(10, top as int));
            lemma_log10_sandwich(top as int);
            assert(d <= 9) by {
                if d > 9 {
                    lemma_pow10_small();
                    lemma_pow_increases(10, 10nat, d as nat);
                    assert(top as int >= pow(10, d as nat));
                }
            }
        }
        let r = d + 9 * ((n - 1) as u64);
        proof {
            self.lemma_log10_of_val(d as int);
        }
        r
    }

    /// Relates the digit count of the top limb to the decimal floor
    /// logarithm of the whole value.
    proof fn lemma_log10_of_val(self, d: int)
        requires
            self.wf(),
            d == log(10, self.limbs@.last() as int),
        ensures
            log(10, self.val()) == d + 9 * (self.limbs@.len() - 1),
            pow(10, (d + 9 * (self.limbs@.len() - 1)) as nat) <= self.val(),
            self.val() < pow(10, (d + 9 * (self.limbs@.len() - 1) + 1) as nat),
    {
        let s = self.limbs@;
        let n = s.len() as int;
        let top = s.last() as int;
        let p = pow(1000000000, (n - 1) as nat);
        lemma_log10_sandwich(top);
        lemma_pow_positive(10, (9 * (n - 1)) as nat);
        assert(p == pow(10, (9 * (n - 1)) as nat)) by {
            lemma_pow_multiplies(10, 9, (n - 1) as nat);
            lemma_pow10_small();
        }
        // lower bound: top * p >= 10^d * p = 10^(d + 9(n-1))
        lemma_limbs_val_lower(s);
        lemma_mul_inequality(pow(10, d as nat), top, p);
        assert(pow(10, d as nat) * p == pow(10, (d + 9 * (n - 1)) as nat)) by {
            lemma_pow_adds(10, d as nat, (9 * (n - 1)) as nat);
        }
        // upper bound: val < (top + 1) * p <= 10^(d+1) * p = 10^(d + 9(n-1) + 1)
        lemma_limbs_val_upper(s.drop_last());
        assert(limbs_val(s) < p + top * p);
        assert(p + top * p == (top + 1) * p) by {
            lemma_mul_is_distributive_add_other_way(p, top, 1);
        }
        lemma_mul_inequality(top + 1, pow(10, (d + 1) as nat), p);
        assert(pow(10, (d + 1) as nat) * p == pow(10, (d + 1 + 9 * (n - 1)) as nat)) by {
            lemma_pow_adds(10, (d + 1) as nat, (9 * (n - 1)) as nat);
        }
        lemma_log10_from_bounds(limbs_val(s), d + 9 * (n - 1));
    }

    /// `n^k` held exactly, built by repeated small multiplication.
    pub fn power_of_small(n: u64, k: u64) -> (r: BigDec)
        requires
            1 <= n < 1000000000,
            1 <= k <= 10000,
        ensures
            r.wf(),
            r.val() == pow(n as int, k as nat),
            r.limb_count() <= k,
    {
        let mut big = BigDec::new_small(n);
        proof {
            lemma_pow1(n as int);
        }
        let mut i: u64 = 1;
        while i < k
            invariant
                1 <= i <= k,
                k <= 10000,
                1 <= n < 1000000000,
                big.wf(),
                big.val() == pow(n as int, i as nat),
                big.limb_count() <= i,
            decreases k - i,
        {
            big.mul_small(n);
            proof {
                lemma_pow_adds(n as int, 1, i as nat);
                lemma_pow1(n as int);
                assert((1 + i as nat) == (i + 1) as nat);
                assert(pow(n as int, (i + 1) as nat) == n * pow(n as int, i as nat));
            }
            i = i + 1;
        }
        big
    }

    /// Whether the value is an exact power of ten, which is the case
    /// exactly when its floor logarithm loses nothing.
    pub fn is_ten_power(&self) -> (b: bool)
        requires
            self.wf(),
        ensures
            b <==> self.val() == pow(10, log(10, self.val()) as nat),
    {
        let n = self.limbs.len();
        let mut i: usize = 0;
        let mut lower_zero = true;
        while i < n - 1
            invariant
                i <= n - 1,
                n == self.limbs@.len(),
                lower_zero <==> (forall|j: int| 0 <= j < i ==> self.limbs@[j] == 0),
            decreases n - 1 - i,
        {
            if self.limbs[i] != 0 {
                lower_zero = false;
            }
            i = i + 1;
        }
        let top = self.limbs[n - 1];
        let top_pow = top == 1 || top == 10 || top == 100 || top == 1000 || top == 10000
            || top == 100000 || top == 1000000 || top == 10000000 || top == 100000000;
        proof {
            let s = self.limbs@;
            let top_i = top as int;
            let d = log(10, top_i);
            let p = pow(1000000000, (n - 1) as nat);
            let f = d + 9 * (n as int - 1);
            self.lemma_log10_of_val(d);
            lemma_pow10_small();
            lemma_log10_sandwich(top_i);
            lemma_limbs_val_zero_iff(s.drop_last());
            lemma_limbs_val_nonneg(s.drop_last());
            lemma_pow_positive(1000000000, (n - 1) as nat);
            assert(p == pow(10, (9 * (n as int - 1)) as nat)) by {
                lemma_pow_multiplies(10, 9, (n - 1) as nat);
            }
            assert(pow(10, d as nat) * p == pow(10, f as nat)) by {
                lemma_pow_adds(10, d as nat, (9 * (n as int - 1)) as nat);
            }
            assert(limbs_val(s) == limbs_val(s.drop_last()) + top_i * p);
            assert(forall|j: int| 0 <= j < n - 1 ==> s.drop_last()[j] == s[j]);
            if top_pow {
                // each listed value is 10^(its own floor logarithm)
                assert(top_i == pow(10, d as nat)) by {
                    if top == 1 { lemma_log10_from_bounds(1, 0); }
                    if top == 10 { lemma_log10_from_bounds(10, 1); }
                    if top == 100 { lemma_log10_from_bounds(100, 2); }
                    if top == 1000 { lemma_log10_from_bounds(1000, 3); }
                    if top == 10000 { lemma_log10_from_bounds(10000, 4); }
                    if top == 100000 { lemma_log10_from_bounds(100000, 5); }
                    if top == 1000000 { lemma_log10_from_bounds(1000000, 6); }
                    if top == 10000000 { lemma_log10_from_bounds(10000000, 7); }
                    if top == 100000000 { lemma_log10_from_bounds(100000000, 8); }
                }
                if lower_zero {
                    assert(limbs_val(s.drop_last()) == 0);
                    assert(limbs_val(s) == pow(10, d as nat) * p);
                }
            } else {
                // top is strictly between two powers of ten
                assert(top_i != pow(10, d as nat)) by {
                    lemma_pow_strictly_increases_converse(10, d as nat, 9nat);
                    assert(0 <= d <= 8);
                    if top_i == pow(10, d as nat) {
                        assert(d == 0 || d == 1 || d == 2 || d == 3 || d == 4 || d == 5
                            || d == 6 || d == 7 || d == 8);
                        assert(false);
                    }
                }
                assert(top_i > pow(10, d as nat));
                assert(top_i * p >= (pow(10, d as nat) + 1) * p) by {
                    lemma_mul_inequality(pow(10, d as nat) + 1, top_i, p);
                }
                assert((pow(10, d as nat) + 1) * p == pow(10, d as nat) * p + p) by {
                    lemma_mul_is_distributive_add_other_way(p, pow(10, d as nat), 1);
                }
                assert(limbs_val(s) > pow(10, f as nat));
            }
            if top_pow && !lower_zero {
                assert(limbs_val(s.drop_last()) > 0);
                assert(top_i * p == pow(10, d as nat) * p);
                assert(limbs_val(s) > pow(10, f as nat));
            }
        }
        lower_zero && top_pow
    }

    /// Multiplies in place by a small factor, with exact carries.
    pub fn mul_small(&mut self, m: u64)
        requires
            old(self).wf(),
            1 <= m < 1000000000,
            old(self).limb_count() < 100000,
        ensures
            final(self).wf(),
            final(self).val() == old(self).val() * m,
            final(self).limb_count() <= old(self).limb_count() + 1,
    {
        let ghost orig = self.limbs@;
        let n = self.limbs.len();
        let mut carry: u64 = 0;
        let mut i: usize = 0;
        while i < n
            invariant
                i <= n,
                n == orig.len(),
                n < 100000,
                self.limbs@.len() == n,
                1 <= m < 1000000000,
                carry < m,
                forall|j: int| 0 <= j < orig.len() ==> orig[j] < 1000000000,
                forall|j: int| i <= j < n ==> self.limbs@[j] == orig[j],
                forall|j: int| 0 <= j < i ==> self.limbs@[j] < 1000000000,
                limbs_val(self.limbs@.take(i as int)) + carry * pow(1000000000, i as nat)
                    == limbs_val(orig.take(i as int)) * m,
            decreases n - i,
        {
            let ghost pre = self.limbs@;
            let ghost carry0 = carry;
            let limb = self.limbs[i];
            proof {
                assert(limb == orig[i as int]);
                assert(limb < 1000000000);
                lemma_mul_inequality(limb as int, 999999999, m as int);
            }
            let prod = limb * m + carry;
            self.limbs.set(i, prod % 1000000000);
            carry = prod / 1000000000;
            assert(carry < m) by {
                if carry >= m {
                    lemma_mul_inequality(m as int, carry as int, 1000000000);
                    lemma_fundamental_div_mod(prod as int, 1000000000);
                }
            }
            proof {
                lemma_limbs_val_take_step(self.limbs@, i as int);
                lemma_limbs_val_take_step(orig, i as int);
                assert(self.limbs@.take(i as int) =~= pre.take(i as int));
                lemma_fundamental_div_mod(prod as int, 1000000000);
                let pri = pow(1000000000, i as nat);
                let pri1 = pow(1000000000, (i + 1) as nat);
                assert(pri1 == 1000000000 * pri) by {
                    lemma_pow_adds(1000000000, 1, i as nat);
                    lemma_pow1(1000000000);
                }
                assert(limbs_val(self.limbs@.take(i + 1)) + carry * pri1
                    == limbs_val(orig.take(i + 1)) * m) by (nonlinear_arith)
                    requires
                        limbs_val(self.limbs@.take(i + 1))
                            == limbs_val(pre.take(i as int)) + (prod as int % 1000000000) * pri,
                        limbs_val(orig.take(i + 1))
                            == limbs_val(orig.take(i as int)) + orig[i as int] * pri,
                        limbs_val(pre.take(i as int)) + carry0 * pri
                            == limbs_val(orig.take(i as int)) * m,
                        prod == 1000000000 * (carry as int) + (prod as int % 1000000000),
                        prod == orig[i as int] * m + carry0,
                        pri1 == 1000000000 * pri,
                {}
            }
            i = i + 1;
        }
        proof {
            assert(self.limbs@.take(n as int) =~= self.limbs@);
            assert(orig.take(n as int) =~= orig);
        }
        if carry > 0 {
            let ghost pre = self.limbs@;
            self.limbs.push(carry);
            proof {
                assert(self.limbs@.drop_last() =~= pre);
                assert(self.limbs@.last() == carry);
            }
        } else {
            proof {
                // Without a final carry the value is already in place; the top
                // limb cannot be zero, else the value would be smaller than the
                // (positive) product it must equal.
                let s = self.limbs@;
                if s.last() == 0 {
                    lemma_limbs_val_upper(s.drop_last());
                    assert(limbs_val(s) == limbs_val(s.drop_last()));
                    assert(limbs_val(s) < pow(1000000000, (n - 1) as nat));
                    lemma_limbs_val_lower(orig);
                    lemma_pow_positive(1000000000, (n - 1) as nat);
                    lemma_mul_inequality(1, orig.last() as int, pow(1000000000, (n - 1) as nat));
                    assert(old(self).val() >= pow(1000000000, (n - 1) as nat));
                    let v = old(self).val();
                    assert(v * m >= v * 1) by (nonlinear_arith)
                        requires m >= 1, v >= 1,
                    {}
                    assert(false);
                }
            }
        }
    }
}

} // verus!
