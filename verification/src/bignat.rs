//! Unbounded unsigned integers, used by the partial-credit subtask scoring
//! rule to evaluate its product of ratios exactly, with no rounding before
//! the final division.
//!
//! A number is a little-endian sequence of 32-bit limbs; the abstract value
//! is the usual radix-2^32 interpretation.

use vstd::prelude::*;
use vstd::arithmetic::power::{pow, lemma_pow_adds, lemma_pow_positive, lemma_pow0, lemma_pow1};
use vstd::arithmetic::div_mod::{
    lemma_fundamental_div_mod, lemma_fundamental_div_mod_converse_div, lemma_div_is_ordered,
    lemma_multiply_divide_lt, lemma_div_pos_is_pos, lemma_div_decreases,
};

verus! {

/// Radix of the limb representation, as a spec-level power.
pub open spec fn pow_b(e: nat) -> int {
    pow(0x100000000, e)
}

/// Value of a little-endian limb sequence.
pub open spec fn limbs_value(s: Seq<u32>) -> int
    decreases s.len(),
{
    if s.len() == 0 {
        0
    } else {
        s[0] as int + 0x100000000 * limbs_value(s.drop_first())
    }
}

pub proof fn lemma_value_nonneg(s: Seq<u32>)
    ensures
        limbs_value(s) >= 0,
    decreases s.len(),
{
    if s.len() > 0 {
        lemma_value_nonneg(s.drop_first());
    }
}

pub proof fn lemma_pow_b_pos(e: nat)
    ensures
        pow_b(e) >= 1,
{
    lemma_pow_positive(0x100000000, e);
}

pub proof fn lemma_pow_b_succ(e: nat)
    ensures
        pow_b(e + 1) == 0x100000000 * pow_b(e),
{
    lemma_pow1(0x100000000);
    lemma_pow_adds(0x100000000, 1, e);
}

pub proof fn lemma_value_snoc(s: Seq<u32>, x: u32)
    ensures
        limbs_value(s.push(x)) == limbs_value(s) + x * pow_b(s.len()),
    decreases s.len(),
{
    if s.len() == 0 {
        assert(s.push(x).drop_first() =~= Seq::<u32>::empty());
        lemma_pow0(0x100000000);
        assert(limbs_value(Seq::<u32>::empty()) == 0);
        assert(s =~= Seq::<u32>::empty());
        assert(s.push(x)[0] == x);
        assert(limbs_value(s.push(x)) == x as int + 0x100000000 * 0);
    } else {
        let df = s.drop_first();
        assert(s.push(x).drop_first() =~= df.push(x));
        lemma_value_snoc(df, x);
        lemma_pow_b_succ((s.len() - 1) as nat);
        assert(pow_b(s.len()) == 0x100000000 * pow_b((s.len() - 1) as nat));
        assert(s.push(x)[0] == s[0]);
        assert(limbs_value(s.push(x)) == s[0] as int + 0x100000000 * limbs_value(df.push(x)));
        assert(limbs_value(s) == s[0] as int + 0x100000000 * limbs_value(df));
        assert(limbs_value(df.push(x)) == limbs_value(df) + x * pow_b((s.len() - 1) as nat));
        assert(0x100000000 * (limbs_value(df) + x * pow_b((s.len() - 1) as nat)) == 0x100000000
            * limbs_value(df) + x * (0x100000000 * pow_b((s.len() - 1) as nat)))
            by (nonlinear_arith);
        assert(x * (0x100000000 * pow_b((s.len() - 1) as nat)) == x * pow_b(s.len()));
    }
}

pub proof fn lemma_value_zero(s: Seq<u32>)
    requires
        forall|i: int| 0 <= i < s.len() ==> s[i] == 0,
    ensures
        limbs_value(s) == 0,
    decreases s.len(),
{
    if s.len() > 0 {
        lemma_value_zero(s.drop_first());
    }
}

pub proof fn lemma_value_split(s: Seq<u32>, k: int)
    requires
        0 <= k <= s.len(),
    ensures
        limbs_value(s) == limbs_value(s.take(k)) + pow_b(k as nat) * limbs_value(s.skip(k)),
    decreases k,
{
    if k == 0 {
        assert(s.take(0) =~= Seq::<u32>::empty());
        assert(s.skip(0) =~= s);
        lemma_pow0(0x100000000);
    } else {
        let df = s.drop_first();
        assert(df.take(k - 1) =~= s.take(k).drop_first());
        assert(df.skip(k - 1) =~= s.skip(k));
        lemma_value_split(df, k - 1);
        assert(limbs_value(s.take(k)) == s[0] as int + 0x100000000 * limbs_value(df.take(k - 1)));
        lemma_pow_b_succ((k - 1) as nat);
        assert(0x100000000 * (limbs_value(df.take(k - 1)) + pow_b((k - 1) as nat) * limbs_value(
            s.skip(k),
        )) == 0x100000000 * limbs_value(df.take(k - 1)) + (0x100000000 * pow_b((k - 1) as nat))
            * limbs_value(s.skip(k))) by (nonlinear_arith);
    }
}

/// One carry-propagation step of a multiply-accumulate pass: pushing the low
/// half of `va * m + carry_old` and keeping its high half as the next carry
/// preserves the radix invariant.
proof fn lemma_mac_step(out_old: int, carry_old: int, acc: int, va: int, m: int, q: int, low: int, pw: int)
    requires
        out_old + carry_old * pw == acc * m,
        va * m + carry_old == 0x100000000 * q + low,
    ensures
        (out_old + low * pw) + q * (0x100000000 * pw) == (acc + va * pw) * m,
{
    assert((out_old + low * pw) + q * (0x100000000 * pw) == (acc + va * pw) * m)
        by (nonlinear_arith)
        requires
            out_old + carry_old * pw == acc * m,
            va * m + carry_old == 0x100000000 * q + low,
    ;
}

/// One carry-propagation step of an addition pass.
proof fn lemma_add_step(out_old: int, carry_old: int, av: int, bv: int, sa: int, sb: int, q: int, low: int, pw: int)
    requires
        out_old + carry_old * pw == sa + sb,
        av + bv + carry_old == 0x100000000 * q + low,
    ensures
        (out_old + low * pw) + q * (0x100000000 * pw) == (sa + av * pw) + (sb + bv * pw),
{
    assert((out_old + low * pw) + q * (0x100000000 * pw) == (sa + av * pw) + (sb + bv * pw))
        by (nonlinear_arith)
        requires
            out_old + carry_old * pw == sa + sb,
            av + bv + carry_old == 0x100000000 * q + low,
    ;
}

/// One top-down step of short division: consuming limb `s0` turns a partial
/// quotient/remainder for the high part into one for the next larger part.
proof fn lemma_div_step(s_tail: int, q_tail: int, rem_old: int, s0: int, qd: int, rem_new: int, d: int)
    requires
        s_tail == d * q_tail + rem_old,
        rem_old * 0x100000000 + s0 == d * qd + rem_new,
    ensures
        s0 + 0x100000000 * s_tail == d * (qd + 0x100000000 * q_tail) + rem_new,
{
    assert(s0 + 0x100000000 * s_tail == d * (qd + 0x100000000 * q_tail) + rem_new)
        by (nonlinear_arith)
        requires
            s_tail == d * q_tail + rem_old,
            rem_old * 0x100000000 + s0 == d * qd + rem_new,
    ;
}

/// An arbitrary-precision unsigned integer.
pub struct BigNat {
    limbs: Vec<u32>,
}

impl BigNat {
    /// The abstract value of this number.
    pub closed spec fn value(&self) -> int {
        limbs_value(self.limbs@)
    }

    pub proof fn lemma_nonneg(&self)
        ensures
            self.value() >= 0,
    {
        lemma_value_nonneg(self.limbs@);
    }

    /// The number with the given 128-bit value.
    pub fn from_u128(x: u128) -> (r: BigNat)
        ensures
            r.value() == x as int,
    {
        let mut limbs: Vec<u32> = Vec::new();
        let mut rest: u128 = x;
        proof {
            lemma_pow0(0x100000000);
        }
        while rest > 0
            invariant
                limbs_value(limbs@) + rest * pow_b(limbs@.len() as nat) == x as int,
            decreases rest,
        {
            let ghost old_limbs = limbs@;
            let ghost old_rest = rest as int;
            let ghost e = limbs@.len() as nat;
            let low: u32 = (rest % 0x100000000) as u32;
            limbs.push(low);
            rest = rest / 0x100000000;
            proof {
                lemma_value_snoc(old_limbs, low);
                lemma_pow_b_succ(e);
                lemma_fundamental_div_mod(old_rest, 0x100000000);
                assert(limbs_value(limbs@) == limbs_value(old_limbs) + low * pow_b(e));
                assert(pow_b(limbs@.len() as nat) == 0x100000000 * pow_b(e));
                assert((rest as int) * pow_b(limbs@.len() as nat) == (old_rest / 0x100000000) * (
                0x100000000 * pow_b(e))) by (nonlinear_arith)
                    requires
                        rest as int == old_rest / 0x100000000,
                        pow_b(limbs@.len() as nat) == 0x100000000 * pow_b(e),
                ;
                assert(limbs_value(old_limbs) + low * pow_b(e) + (old_rest / 0x100000000) * (
                0x100000000 * pow_b(e)) == limbs_value(old_limbs) + old_rest * pow_b(e))
                    by (nonlinear_arith)
                    requires
                        old_rest == 0x100000000 * (old_rest / 0x100000000) + low,
                ;
                lemma_div_decreases(old_rest, 0x100000000);
            }
        }
        BigNat { limbs }
    }

    /// The product of this number and a small (below 2^96) factor.
    pub fn mul_small(&self, m: u128) -> (r: BigNat)
        requires
            m < 0x1000000000000000000000000,
        ensures
            r.value() == self.value() * m,
    {
        let n = self.limbs.len();
        let mut out: Vec<u32> = Vec::new();
        let mut carry: u128 = 0;
        let mut i: usize = 0;
        proof {
            lemma_pow0(0x100000000);
            assert(self.limbs@.take(0) =~= Seq::<u32>::empty());
        }
        while i < n
            invariant
                n == self.limbs@.len(),
                i <= n,
                out@.len() == i,
                carry <= m,
                m < 0x1000000000000000000000000,
                limbs_value(out@) + carry * pow_b(i as nat) == limbs_value(
                    self.limbs@.take(i as int),
                ) * m,
            decreases n - i,
        {
            let ghost old_out = out@;
            let ghost old_carry = carry as int;
            let ghost e = i as nat;
            let limb = self.limbs[i];
            proof {
                assert((limb as int) * (m as int) + old_carry < 0x100000000000000000000000000000000)
                    by (nonlinear_arith)
                    requires
                        limb < 0x100000000,
                        m < 0x1000000000000000000000000,
                        0 <= old_carry <= m,
                        0 <= limb,
                ;
            }
            let t: u128 = limb as u128 * m + carry;
            let low: u32 = (t % 0x100000000) as u32;
            out.push(low);
            carry = t / 0x100000000;
            i = i + 1;
            proof {
                lemma_value_snoc(old_out, low);
                lemma_pow_b_succ(e);
                lemma_fundamental_div_mod(t as int, 0x100000000);
                assert(self.limbs@.take(i as int) =~= self.limbs@.take(e as int).push(limb));
                lemma_value_snoc(self.limbs@.take(e as int), limb);
                lemma_mac_step(
                    limbs_value(old_out),
                    old_carry,
                    limbs_value(self.limbs@.take(e as int)),
                    limb as int,
                    m as int,
                    t as int / 0x100000000,
                    low as int,
                    pow_b(e),
                );
                assert(limbs_value(out@) + carry * pow_b(i as nat) == limbs_value(
                    self.limbs@.take(i as int),
                ) * m) by {
                    assert(limbs_value(out@) == limbs_value(old_out) + low * pow_b(e));
                    assert((carry as int) * pow_b(i as nat) == (t as int / 0x100000000) * (
                    0x100000000 * pow_b(e))) by (nonlinear_arith)
                        requires
                            carry as int == t as int / 0x100000000,
                            pow_b(i as nat) == 0x100000000 * pow_b(e),
                    ;
                }
                // the new carry is again at most the factor
                assert(t as int <= 0x100000000 * m) by (nonlinear_arith)
                    requires
                        t as int == (limb as int) * (m as int) + old_carry,
                        limb < 0x100000000,
                        0 <= old_carry <= m,
                        0 <= limb,
                ;
                lemma_div_is_ordered(t as int, 0x100000000 * m, 0x100000000);
                assert((0x100000000 * m) / 0x100000000 == m) by (nonlinear_arith)
                    requires
                        m >= 0,
                ;
            }
        }
        proof {
            assert(self.limbs@.take(n as int) =~= self.limbs@);
        }
        while carry > 0
            invariant
                limbs_value(out@) + carry * pow_b(out@.len() as nat) == limbs_value(self.limbs@)
                    * m,
            decreases carry,
        {
            let ghost old_out = out@;
            let ghost old_carry = carry as int;
            let ghost e = out@.len() as nat;
            let low: u32 = (carry % 0x100000000) as u32;
            out.push(low);
            carry = carry / 0x100000000;
            proof {
                lemma_value_snoc(old_out, low);
                lemma_pow_b_succ(e);
                lemma_fundamental_div_mod(old_carry, 0x100000000);
                assert(limbs_value(out@) + carry * pow_b(out@.len() as nat) == limbs_value(
                    self.limbs@,
                ) * m) by {
                    assert(limbs_value(out@) == limbs_value(old_out) + low * pow_b(e));
                    assert(limbs_value(old_out) + low * pow_b(e) + (old_carry / 0x100000000) * (
                    0x100000000 * pow_b(e)) == limbs_value(old_out) + old_carry * pow_b(e))
                        by (nonlinear_arith)
                        requires
                            old_carry == 0x100000000 * (old_carry / 0x100000000) + low,
                    ;
                    assert((carry as int) * pow_b(out@.len() as nat) == (old_carry / 0x100000000)
                        * (0x100000000 * pow_b(e))) by (nonlinear_arith)
                        requires
                            carry as int == old_carry / 0x100000000,
                            pow_b(out@.len() as nat) == 0x100000000 * pow_b(e),
                    ;
                }
                lemma_div_decreases(old_carry, 0x100000000);
            }
        }
        BigNat { limbs: out }
    }

    /// The sum of this number and another.
    pub fn add(&self, other: &BigNat) -> (r: BigNat)
        ensures
            r.value() == self.value() + other.value(),
    {
        let a = &self.limbs;
        let b = &other.limbs;
        let alen = a.len();
        let blen = b.len();
        let n = if alen < blen {
            blen
        } else {
            alen
        };
        let mut out: Vec<u32> = Vec::new();
        let mut carry: u64 = 0;
        let mut i: usize = 0;
        proof {
            lemma_pow0(0x100000000);
            assert(a@.take(0) =~= Seq::<u32>::empty());
            assert(b@.take(0) =~= Seq::<u32>::empty());
        }
        while i < n
            invariant
                alen == a@.len(),
                blen == b@.len(),
                n == if alen < blen {
                    blen as int
                } else {
                    alen as int
                },
                i <= n,
                out@.len() == i,
                carry <= 1,
                limbs_value(out@) + carry * pow_b(i as nat) == limbs_value(
                    a@.take(if i < alen {
                        i as int
                    } else {
                        alen as int
                    }),
                ) + limbs_value(
                    b@.take(if i < blen {
                        i as int
                    } else {
                        blen as int
                    }),
                ),
            decreases n - i,
        {
            let ghost old_out = out@;
            let ghost old_carry = carry as int;
            let ghost e = i as nat;
            let ghost a_acc = limbs_value(
                a@.take(if i < alen {
                    i as int
                } else {
                    alen as int
                }),
            );
            let ghost b_acc = limbs_value(
                b@.take(if i < blen {
                    i as int
                } else {
                    blen as int
                }),
            );
            let av: u64 = if i < alen {
                a[i] as u64
            } else {
                0
            };
            let bv: u64 = if i < blen {
                b[i] as u64
            } else {
                0
            };
            let t: u64 = av + bv + carry;
            let low: u32 = (t % 0x100000000) as u32;
            out.push(low);
            carry = t / 0x100000000;
            i = i + 1;
            proof {
                lemma_value_snoc(old_out, low);
                lemma_pow_b_succ(e);
                lemma_fundamental_div_mod(t as int, 0x100000000);
                if e < alen {
                    assert(a@.take(e as int + 1) =~= a@.take(e as int).push(a@[e as int]));
                    lemma_value_snoc(a@.take(e as int), a@[e as int]);
                }
                if e < blen {
                    assert(b@.take(e as int + 1) =~= b@.take(e as int).push(b@[e as int]));
                    lemma_value_snoc(b@.take(e as int), b@[e as int]);
                }
                lemma_add_step(
                    limbs_value(old_out),
                    old_carry,
                    av as int,
                    bv as int,
                    a_acc,
                    b_acc,
                    t as int / 0x100000000,
                    low as int,
                    pow_b(e),
                );
                assert(limbs_value(out@) == limbs_value(old_out) + low * pow_b(e));
                assert((carry as int) * pow_b(i as nat) == (t as int / 0x100000000) * (0x100000000
                    * pow_b(e))) by (nonlinear_arith)
                    requires
                        carry as int == t as int / 0x100000000,
                        pow_b(i as nat) == 0x100000000 * pow_b(e),
                ;
                lemma_pow_b_pos(e);
                assert(av as int * pow_b(e) >= 0 && bv as int * pow_b(e) >= 0) by (nonlinear_arith)
                    requires
                        av >= 0,
                        bv >= 0,
                        pow_b(e) >= 1,
                ;
            }
        }
        if carry > 0 {
            let ghost old_out = out@;
            out.push(1);
            proof {
                lemma_value_snoc(old_out, 1);
            }
        }
        proof {
            assert(a@.take(alen as int) =~= a@);
            assert(b@.take(blen as int) =~= b@);
        }
        BigNat { limbs: out }
    }

    /// The quotient of this number by a small nonzero divisor, rounded
    /// toward zero.
    pub fn div_small(&self, d: u64) -> (r: BigNat)
        requires
            d >= 1,
        ensures
            r.value() == self.value() / (d as int),
    {
        let n = self.limbs.len();
        let mut q: Vec<u32> = Vec::new();
        let mut i: usize = 0;
        while i < n
            invariant
                n == self.limbs@.len(),
                i <= n,
                q@ =~= self.limbs@.take(i as int),
            decreases n - i,
        {
            q.push(self.limbs[i]);
            i = i + 1;
        }
        proof {
            assert(q@ =~= self.limbs@);
        }
        let mut rem: u64 = 0;
        let mut j: usize = n;
        proof {
            assert(self.limbs@.skip(n as int) =~= Seq::<u32>::empty());
            assert(q@.skip(n as int) =~= Seq::<u32>::empty());
        }
        while j > 0
            invariant
                n == self.limbs@.len(),
                q@.len() == n,
                j <= n,
                rem < d,
                d >= 1,
                q@.take(j as int) =~= self.limbs@.take(j as int),
                limbs_value(self.limbs@.skip(j as int)) == (d as int) * limbs_value(
                    q@.skip(j as int),
                ) + rem,
            decreases j,
        {
            let ghost old_q = q@;
            let ghost old_rem = rem as int;
            j = j - 1;
            let limb = q[j];
            proof {
                assert(old_q.take(j as int + 1)[j as int] == self.limbs@.take(j as int + 1)[
                    j as int
                ]);
                assert(limb == self.limbs@[j as int]);
            }
            let cur: u128 = (rem as u128) * 0x100000000 + (limb as u128);
            proof {
                assert((cur as int) < (d as int) * 0x100000000) by (nonlinear_arith)
                    requires
                        cur as int == old_rem * 0x100000000 + limb as int,
                        0 <= old_rem,
                        old_rem < d as int,
                        0 <= limb < 0x100000000,
                ;
                lemma_div_pos_is_pos(cur as int, d as int);
                lemma_multiply_divide_lt(cur as int, d as int, 0x100000000);
            }
            let qd: u32 = (cur / (d as u128)) as u32;
            rem = (cur % (d as u128)) as u64;
            q[j] = qd;
            proof {
                lemma_fundamental_div_mod(cur as int, d as int);
                assert(q@.take(j as int) =~= self.limbs@.take(j as int));
                assert(q@.skip(j as int).drop_first() =~= old_q.skip(j as int + 1));
                assert(self.limbs@.skip(j as int).drop_first() =~= self.limbs@.skip(j as int + 1));
                lemma_div_step(
                    limbs_value(self.limbs@.skip(j as int + 1)),
                    limbs_value(old_q.skip(j as int + 1)),
                    old_rem,
                    self.limbs@[j as int] as int,
                    qd as int,
                    rem as int,
                    d as int,
                );
                assert(limbs_value(q@.skip(j as int)) == qd as int + 0x100000000 * limbs_value(
                    old_q.skip(j as int + 1),
                ));
                assert(limbs_value(self.limbs@.skip(j as int)) == self.limbs@[j as int] as int
                    + 0x100000000 * limbs_value(self.limbs@.skip(j as int + 1)));
            }
        }
        proof {
            assert(q@.skip(0) =~= q@);
            assert(self.limbs@.skip(0) =~= self.limbs@);
            lemma_value_nonneg(q@);
            assert(limbs_value(self.limbs@) == limbs_value(q@) * (d as int) + rem)
                by (nonlinear_arith)
                requires
                    limbs_value(self.limbs@) == (d as int) * limbs_value(q@) + rem,
            ;
            lemma_fundamental_div_mod_converse_div(
                limbs_value(self.limbs@),
                d as int,
                limbs_value(q@),
                rem as int,
            );
        }
        BigNat { limbs: q }
    }

    /// The value of this number, saturated at the given bound.
    pub fn clamped_low(&self, bound: u64) -> (r: u64)
        ensures
            self.value() <= bound as int ==> r as int == self.value(),
            self.value() > bound as int ==> r == bound,
    {
        let n = self.limbs.len();
        let mut i: usize = 2;
        while i < n
            invariant
                n == self.limbs@.len(),
                2 <= i,
                forall|k: int| 2 <= k < i && k < n ==> self.limbs@[k] == 0,
            decreases n - i,
        {
            if self.limbs[i] != 0 {
                // a nonzero limb at position two or above puts the value
                // beyond any 64-bit bound
                proof {
                    lemma_value_split(self.limbs@, i as int);
                    lemma_value_nonneg(self.limbs@.take(i as int));
                    let sk = self.limbs@.skip(i as int);
                    assert(sk[0] == self.limbs@[i as int]);
                    lemma_value_nonneg(sk.drop_first());
                    assert(limbs_value(sk) >= sk[0] as int);
                    lemma_pow_b_pos((i - 2) as nat);
                    assert(pow_b(i as nat) >= pow_b(2)) by {
                        lemma_pow_adds(0x100000000, 2, (i - 2) as nat);
                        assert(pow_b(i as nat) == pow_b(2) * pow(0x100000000, (i - 2) as nat));
                        lemma_pow_b_pos(2);
                        assert(pow_b(2) * pow(0x100000000, (i - 2) as nat) >= pow_b(2) * 1)
                            by (nonlinear_arith)
                            requires
                                pow(0x100000000, (i - 2) as nat) >= 1,
                                pow_b(2) >= 0,
                        ;
                    }
                    assert(pow_b(2) == 0x10000000000000000) by {
                        lemma_pow_b_succ(1);
                        lemma_pow1(0x100000000);
                    }
                    assert(pow_b(i as nat) * limbs_value(sk) >= pow_b(i as nat) * 1)
                        by (nonlinear_arith)
                        requires
                            limbs_value(sk) >= 1,
                            pow_b(i as nat) >= 0,
                    ;
                }
                return bound;
            }
            i = i + 1;
        }
        proof {
            if n > 2 {
                lemma_value_split(self.limbs@, 2);
                lemma_value_zero(self.limbs@.skip(2));
                assert(pow_b(2) * 0 == 0) by (nonlinear_arith);
            }
        }
        let l0: u64 = if n >= 1 {
            self.limbs[0] as u64
        } else {
            0
        };
        let l1: u64 = if n >= 2 {
            self.limbs[1] as u64
        } else {
            0
        };
        let low: u64 = l0 + l1 * 0x100000000;
        proof {
            let s = self.limbs@;
            lemma_pow0(0x100000000);
            lemma_pow1(0x100000000);
            if n == 0 {
                assert(limbs_value(s) == 0);
            } else if n == 1 {
                assert(s.drop_first() =~= Seq::<u32>::empty());
                assert(limbs_value(s.drop_first()) == 0);
                assert(limbs_value(s) == s[0] as int + 0x100000000 * 0);
            } else {
                let t2 = s.take(2);
                assert(t2.drop_first().drop_first() =~= Seq::<u32>::empty());
                assert(limbs_value(t2.drop_first().drop_first()) == 0);
                assert(t2.drop_first()[0] == s[1]);
                assert(limbs_value(t2.drop_first()) == s[1] as int + 0x100000000 * 0);
                assert(t2[0] == s[0]);
                assert(limbs_value(t2) == s[0] as int + 0x100000000 * (s[1] as int));
                if n > 2 {
                    assert(limbs_value(s) == limbs_value(s.take(2)));
                } else {
                    assert(s.take(2) =~= s);
                }
            }
        }
        if low > bound {
            bound
        } else {
            low
        }
    }
}

} // verus!
