//! Unbounded natural numbers, as little-endian vectors of 64-bit limbs.
//!
//! The RANSAC iteration estimator compares `q^N * c` against `r * b^N` for
//! growing `N`; those powers exceed any machine integer, so they are held
//! exactly here.  Only what the estimator needs is provided: construction
//! from a machine word, multiplication by a machine word, and comparison.

use vstd::prelude::*;

verus! {

/// The limb base, 2^64.
pub open spec fn base() -> nat {
    0x1_0000_0000_0000_0000
}

/// `base()^k`.
pub open spec fn base_pow(k: nat) -> nat
    decreases k,
{
    if k == 0 {
        1
    } else {
        base() * base_pow((k - 1) as nat)
    }
}

/// The natural number a little-endian limb sequence denotes.
pub open spec fn limbs_value(s: Seq<u64>) -> nat
    decreases s.len(),
{
    if s.len() == 0 {
        0
    } else {
        (limbs_value(s.drop_last()) + s.last() * base_pow((s.len() - 1) as nat)) as nat
    }
}

/// Powers of the base are positive.
pub proof fn lemma_base_pow_pos(k: nat)
    ensures
        base_pow(k) >= 1,
    decreases k,
{
    if k > 0 {
        lemma_base_pow_pos((k - 1) as nat);
        assert(base() * base_pow((k - 1) as nat) >= base_pow((k - 1) as nat)) by (nonlinear_arith)
            requires
                base_pow((k - 1) as nat) >= 0;
    }
}

/// Powers of the base grow with the exponent.
pub proof fn lemma_base_pow_mono(i: nat, j: nat)
    requires
        i <= j,
    ensures
        base_pow(i) <= base_pow(j),
    decreases j,
{
    if i < j {
        lemma_base_pow_mono(i, (j - 1) as nat);
        lemma_base_pow_pos((j - 1) as nat);
        assert(base_pow((j - 1) as nat) <= base() * base_pow((j - 1) as nat)) by (nonlinear_arith)
            requires
                base_pow((j - 1) as nat) >= 1;
    }
}

/// A limb sequence of length `n` denotes less than `base()^n`.
pub proof fn lemma_value_upper(s: Seq<u64>)
    ensures
        limbs_value(s) < base_pow(s.len()),
    decreases s.len(),
{
    if s.len() == 0 {
    } else {
        let n1 = (s.len() - 1) as nat;
        lemma_value_upper(s.drop_last());
        assert(limbs_value(s.drop_last()) + s.last() * base_pow(n1) < base() * base_pow(n1))
            by (nonlinear_arith)
            requires
                limbs_value(s.drop_last()) < base_pow(n1),
                0 <= s.last() < base(),
                base_pow(n1) >= 0;
    }
}

/// A limb sequence whose top limb is nonzero denotes at least
/// `base()^(n-1)`.
pub proof fn lemma_value_lower(s: Seq<u64>)
    requires
        s.len() > 0,
        s.last() != 0,
    ensures
        limbs_value(s) >= base_pow((s.len() - 1) as nat),
{
    let n1 = (s.len() - 1) as nat;
    lemma_base_pow_pos(n1);
    assert(s.last() * base_pow(n1) >= base_pow(n1)) by (nonlinear_arith)
        requires
            s.last() >= 1,
            base_pow(n1) >= 1;
}

/// Extending a limb sequence by one element adds that limb's weighted value.
pub proof fn lemma_value_push(s: Seq<u64>, x: u64)
    ensures
        limbs_value(s.push(x)) == limbs_value(s) + x * base_pow(s.len()),
{
    assert(s.push(x).drop_last() =~= s);
}

/// The value of a one-longer prefix adds the new limb's weighted value.
pub proof fn lemma_value_prefix_step(s: Seq<u64>, i: int)
    requires
        0 <= i < s.len(),
    ensures
        limbs_value(s.subrange(0, i + 1)) == limbs_value(s.subrange(0, i)) + s[i] * base_pow(
            i as nat,
        ),
{
    assert(s.subrange(0, i + 1).drop_last() =~= s.subrange(0, i));
}

/// Two equal-length limb sequences that agree above position `i`, where one
/// exceeds the other, denote values in the same order.
pub proof fn lemma_value_cmp_at(a: Seq<u64>, b: Seq<u64>, i: int)
    requires
        a.len() == b.len(),
        0 <= i < a.len(),
        a[i] > b[i],
        forall|j: int| i < j < a.len() ==> a[j] == b[j],
    ensures
        limbs_value(a) > limbs_value(b),
    decreases a.len(),
{
    if i == a.len() - 1 {
        lemma_value_upper(a.drop_last());
        lemma_value_upper(b.drop_last());
        assert(b.last() * base_pow((b.len() - 1) as nat) + base_pow((b.len() - 1) as nat)
            <= a.last() * base_pow((a.len() - 1) as nat)) by (nonlinear_arith)
            requires
                a.len() == b.len(),
                b.last() + 1 <= a.last(),
                base_pow((a.len() - 1) as nat) >= 0;
    } else {
        lemma_value_cmp_at(a.drop_last(), b.drop_last(), i);
    }
}

/// An exact natural number of unbounded range.  The limb vector carries no
/// trailing zero limb, so comparisons can go by length first.
pub struct BigNat {
    pub limbs: Vec<u64>,
}

impl BigNat {
    /// Canonical form: no trailing zero limb.
    pub open spec fn wf(self) -> bool {
        self.limbs@.len() == 0 || self.limbs@.last() != 0
    }

    /// The number this value denotes.
    pub open spec fn value(self) -> nat {
        limbs_value(self.limbs@)
    }

    /// The number `v`.
    pub fn from_u64(v: u64) -> (r: BigNat)
        ensures
            r.value() == v,
            r.wf(),
    {
        let mut limbs: Vec<u64> = Vec::new();
        let ghost e = limbs@;
        proof {
            assert(e =~= Seq::<u64>::empty());
            assert(limbs_value(Seq::<u64>::empty()) == 0);
        }
        if v != 0 {
            limbs.push(v);
            proof {
                assert(limbs@ =~= e.push(v));
                lemma_value_push(e, v);
                assert(base_pow(0) == 1);
            }
        }
        BigNat { limbs }
    }

    /// Multiply in place by a nonzero machine word.
    pub fn mul_small(&mut self, m: u64)
        requires
            old(self).wf(),
            m >= 1,
        ensures
            final(self).wf(),
            final(self).value() == old(self).value() * m,
    {
        let ghost orig = self.limbs@;
        let n = self.limbs.len();
        let mut carry: u64 = 0;
        let mut i: usize = 0;
        proof {
            assert(orig.subrange(0, 0) =~= Seq::<u64>::empty());
            assert(self.limbs@.subrange(0, 0) =~= Seq::<u64>::empty());
            assert(limbs_value(Seq::<u64>::empty()) == 0);
            assert(base_pow(0) == 1);
        }
        while i < n
            invariant
                self.limbs@.len() == n,
                n == orig.len(),
                i <= n,
                m >= 1,
                forall|j: int| i <= j < n ==> self.limbs@[j] == orig[j],
                limbs_value(self.limbs@.subrange(0, i as int)) + carry * base_pow(i as nat)
                    == limbs_value(orig.subrange(0, i as int)) * m,
            decreases n - i,
        {
            let limb = self.limbs[i];
            proof {
                assert((limb as int) * (m as int) <= (base() - 1) * (base() - 1))
                    by (nonlinear_arith)
                    requires
                        0 <= (limb as int) && (limb as int) < base(),
                        0 <= (m as int) && (m as int) < base();
            }
            let prod: u128 = (limb as u128) * (m as u128) + (carry as u128);
            let lo = (prod % 0x1_0000_0000_0000_0000u128) as u64;
            let new_carry = (prod / 0x1_0000_0000_0000_0000u128) as u64;
            proof {
                vstd::arithmetic::div_mod::lemma_fundamental_div_mod(
                    prod as int,
                    base() as int,
                );
                assert((prod as int) / (base() as int) < base()) by (nonlinear_arith)
                    requires
                        prod as int <= (base() - 1) * (base() - 1) + (base() - 1),
                        prod as int == (base() as int) * ((prod as int) / (base() as int)) + (
                        prod as int) % (base() as int),
                        0 <= (prod as int) % (base() as int);
            }
            let ghost pre = self.limbs@;
            self.limbs[i] = lo;
            proof {
                assert(self.limbs@.subrange(0, i as int) =~= pre.subrange(0, i as int));
                lemma_value_prefix_step(self.limbs@, i as int);
                lemma_value_prefix_step(orig, i as int);
                // (v + limb * B^i) * m == v * m + (limb * m) * B^i, and
                // limb * m + carry == new_carry * B + lo.
                let bp = base_pow(i as nat);
                assert((limbs_value(orig.subrange(0, i as int)) + orig[i as int] * bp) * m
                    == limbs_value(orig.subrange(0, i as int)) * m + (orig[i as int] * m) * bp)
                    by (nonlinear_arith);
                assert((orig[i as int] * m) * bp + carry * bp == (orig[i as int] * m + carry)
                    * bp) by (nonlinear_arith);
                assert((new_carry * base()) * bp + lo * bp == (new_carry * base() + lo) * bp)
                    by (nonlinear_arith);
                assert(new_carry * (base() * bp) == (new_carry * base()) * bp)
                    by (nonlinear_arith);
                assert(base_pow((i + 1) as nat) == base() * bp);
            }
            carry = new_carry;
            i = i + 1;
        }
        proof {
            assert(self.limbs@.subrange(0, n as int) =~= self.limbs@);
            assert(orig.subrange(0, n as int) =~= orig);
        }
        if carry > 0 {
            proof {
                lemma_value_push(self.limbs@, carry);
            }
            self.limbs.push(carry);
        } else {
            proof {
                if n > 0 {
                    // The top limb cannot have become zero: its product with a
                    // nonzero m, plus the incoming carry, is nonzero, and the
                    // outgoing carry is zero.
                    if self.limbs@.last() == 0 {
                        lemma_value_prefix_step(self.limbs@, n - 1);
                        lemma_value_prefix_step(orig, n - 1);
                        assert(limbs_value(self.limbs@.subrange(0, n - 1)) < base_pow(
                            (n - 1) as nat,
                        )) by {
                            lemma_value_upper(self.limbs@.subrange(0, n - 1));
                        }
                        assert(orig[n - 1] * m >= 1) by (nonlinear_arith)
                            requires
                                orig[n - 1] >= 1,
                                m >= 1;
                        assert(limbs_value(orig.subrange(0, n as int)) * m >= orig[n - 1] * m
                            * base_pow((n - 1) as nat)) by (nonlinear_arith)
                            requires
                                limbs_value(orig.subrange(0, n as int)) >= orig[n - 1]
                                    * base_pow((n - 1) as nat),
                                m >= 1,
                                orig[n - 1] * base_pow((n - 1) as nat) >= 0;
                        assert(orig[n - 1] * m * base_pow((n - 1) as nat) >= base_pow(
                            (n - 1) as nat,
                        )) by (nonlinear_arith)
                            requires
                                orig[n - 1] * m >= 1,
                                base_pow((n - 1) as nat) >= 0;
                        assert(orig[n - 1] * base_pow((n - 1) as nat) >= 0) by (nonlinear_arith)
                            requires
                                orig[n - 1] >= 0,
                                base_pow((n - 1) as nat) >= 0;
                        lemma_base_pow_pos((n - 1) as nat);
                        assert(false);
                    }
                }
            }
        }
    }
}

/// Whether `a` denotes at least as large a number as `b`.
pub fn big_ge(a: &BigNat, b: &BigNat) -> (r: bool)
    requires
        a.wf(),
        b.wf(),
    ensures
        r == (a.value() >= b.value()),
{
    let na = a.limbs.len();
    let nb = b.limbs.len();
    if na != nb {
        proof {
            if na > nb {
                lemma_value_lower(a.limbs@);
                lemma_value_upper(b.limbs@);
                lemma_base_pow_mono(nb as nat, (na - 1) as nat);
            } else {
                lemma_value_lower(b.limbs@);
                lemma_value_upper(a.limbs@);
                lemma_base_pow_mono(na as nat, (nb - 1) as nat);
            }
        }
        return na > nb;
    }
    let mut i = na;
    while i > 0
        invariant
            na == a.limbs@.len(),
            na == b.limbs@.len(),
            i <= na,
            forall|j: int| i <= j < na ==> a.limbs@[j] == b.limbs@[j],
        decreases i,
    {
        i = i - 1;
        let la = a.limbs[i];
        let lb = b.limbs[i];
        if la != lb {
            proof {
                if la > lb {
                    lemma_value_cmp_at(a.limbs@, b.limbs@, i as int);
                } else {
                    lemma_value_cmp_at(b.limbs@, a.limbs@, i as int);
                }
            }
            return la > lb;
        }
    }
    proof {
        assert(a.limbs@ =~= b.limbs@);
    }
    true
}

} // verus!
