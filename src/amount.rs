use vstd::prelude::*;

verus! {

/// Number of distinct values held by one 64-bit limb.
pub open spec fn limb_base() -> nat {
    0x1_0000_0000_0000_0000
}

/// One past the largest value a `U256` can hold.
pub open spec fn u256_bound() -> nat {
    limb_base() * limb_base() * limb_base() * limb_base()
}

/// An unsigned 256-bit integer stored as four little-endian 64-bit limbs.
#[derive(Clone, Copy, Debug, PartialEq, Eq)]
pub struct U256 {
    pub limbs: [u64; 4],
}

/// An unsigned 512-bit integer stored as eight little-endian 64-bit limbs.
#[derive(Clone, Copy, Debug, PartialEq, Eq)]
pub struct U512 {
    pub limbs: [u64; 8],
}

/// The number denoted by little-endian limbs.
pub open spec fn limbs_value(s: Seq<u64>) -> nat
    decreases s.len(),
{
    if s.len() == 0 {
        0
    } else {
        s[0] as nat + limb_base() * limbs_value(s.subrange(1, s.len() as int))
    }
}

impl U256 {
    pub open spec fn value(self) -> nat {
        limbs_value(self.limbs@)
    }

    /// The value of a small integer.
    pub fn from_u64(x: u64) -> (r: U256)
        ensures
            r.value() == x,
    {
        let r = U256 { limbs: [x, 0, 0, 0] };
        proof {
            lemma_limbs_value_small(r.limbs@);
        }
        r
    }

    /// Widens the value into 512 bits.
    pub fn widen(self) -> (r: U512)
        ensures
            r.value() == self.value(),
    {
        let l = self.limbs;
        let r = U512 { limbs: [l[0], l[1], l[2], l[3], 0, 0, 0, 0] };
        proof {
            lemma_limbs_value_zero_extend(self.limbs@, r.limbs@);
        }
        r
    }
}

impl U512 {
    pub open spec fn value(self) -> nat {
        limbs_value(self.limbs@)
    }

    /// The low half of the value, when the high half is zero.
    pub fn narrow(self) -> (r: Option<U256>)
        ensures
            r is Some <==> self.value() < u256_bound(),
            r matches Some(v) ==> v.value() == self.value(),
    {
        let l = self.limbs;
        let r = U256 { limbs: [l[0], l[1], l[2], l[3]] };
        proof {
            lemma_limbs_value_split(self.limbs@, 4);
            assert(self.limbs@.subrange(0, 4) =~= r.limbs@);
            lemma_limbs_value_bound(r.limbs@);
            lemma_pow_limbs_four();
        }
        if l[4] == 0 && l[5] == 0 && l[6] == 0 && l[7] == 0 {
            proof {
                let hi = self.limbs@.subrange(4, 8);
                assert(hi[1] == 0 && hi[2] == 0 && hi[3] == 0);
                lemma_limbs_value_small(hi);
                assert(limbs_value(hi) == 0);
                let p = pow_limbs(4);
                assert(p * limbs_value(hi) == 0) by (nonlinear_arith)
                    requires
                        limbs_value(hi) == 0,
                ;
            }
            Some(r)
        } else {
            proof {
                let hi = self.limbs@.subrange(4, 8);
                assert(hi[0] == l[4] && hi[1] == l[5] && hi[2] == l[6] && hi[3] == l[7]);
                if l[4] != 0 {
                    assert(hi[0] != 0);
                } else if l[5] != 0 {
                    assert(hi[1] != 0);
                } else if l[6] != 0 {
                    assert(hi[2] != 0);
                } else {
                    assert(hi[3] != 0);
                }
                lemma_limbs_value_positive(hi);
                lemma_pow_limbs_four();
                lemma_mul_ge(pow_limbs(4), limbs_value(hi));
            }
            None
        }
    }
}

/// `limb_base()` raised to `n`.
pub open spec fn pow_limbs(n: nat) -> nat
    decreases n,
{
    if n == 0 {
        1
    } else {
        limb_base() * pow_limbs((n - 1) as nat)
    }
}

proof fn lemma_mul_ge(a: nat, b: nat)
    requires
        b >= 1,
    ensures
        a * b >= a,
{
    assert(a * b >= a) by (nonlinear_arith)
        requires
            b >= 1,
    ;
}

/// The limbs' value is below `limb_base()` raised to their count.
pub proof fn lemma_limbs_value_bound(s: Seq<u64>)
    ensures
        limbs_value(s) < pow_limbs(s.len()),
    decreases s.len(),
{
    if s.len() > 0 {
        let t = s.subrange(1, s.len() as int);
        lemma_limbs_value_bound(t);
        let v = limbs_value(t);
        let p = pow_limbs(t.len());
        assert(s[0] as nat + limb_base() * v < limb_base() * p) by (nonlinear_arith)
            requires
                v < p,
                (s[0] as nat) < limb_base(),
        ;
        assert(pow_limbs(s.len()) == limb_base() * p);
    }
}

proof fn lemma_pow_limbs_four()
    ensures
        pow_limbs(4) == u256_bound(),
{
    reveal_with_fuel(pow_limbs, 5);
}

/// Splitting the limbs at `k` splits the value into low and high parts.
pub proof fn lemma_limbs_value_split(s: Seq<u64>, k: nat)
    requires
        k <= s.len(),
    ensures
        limbs_value(s) == limbs_value(s.subrange(0, k as int)) + pow_limbs(k) * limbs_value(
            s.subrange(k as int, s.len() as int),
        ),
    decreases k,
{
    if k > 0 {
        let t = s.subrange(1, s.len() as int);
        lemma_limbs_value_split(t, (k - 1) as nat);
        let lo = s.subrange(0, k as int);
        assert(lo.subrange(1, lo.len() as int) =~= t.subrange(0, k - 1));
        assert(t.subrange(k - 1, t.len() as int) =~= s.subrange(k as int, s.len() as int));
        let a = limbs_value(t.subrange(0, k - 1));
        let b = limbs_value(s.subrange(k as int, s.len() as int));
        let p = pow_limbs((k - 1) as nat);
        assert(limb_base() * (a + p * b) == limb_base() * a + (limb_base() * p) * b)
            by (nonlinear_arith);
        assert(limbs_value(lo) == lo[0] as nat + limb_base() * a);
        assert(lo[0] == s[0]);
        assert(pow_limbs(k) == limb_base() * p);
        assert(limbs_value(s) == s[0] as nat + limb_base() * limbs_value(t));
        assert(limbs_value(t) == a + p * b);
    } else {
        assert(s.subrange(0, 0) =~= Seq::<u64>::empty());
        assert(s.subrange(0, s.len() as int) =~= s);
        assert(limbs_value(Seq::<u64>::empty()) == 0);
        assert(pow_limbs(0) == 1);
        assert(1 * limbs_value(s) == limbs_value(s));
    }
}

/// Limbs that are zero past the first contribute nothing.
proof fn lemma_limbs_value_small(s: Seq<u64>)
    requires
        s.len() >= 1,
        forall|i: int| 1 <= i < s.len() ==> s[i] == 0,
    ensures
        limbs_value(s) == s[0] as nat,
    decreases s.len(),
{
    let t = s.subrange(1, s.len() as int);
    if t.len() > 0 {
        assert forall|i: int| 1 <= i < t.len() implies t[i] == 0 by {
            assert(t[i] == s[i + 1]);
        }
        lemma_limbs_value_small(t);
        assert(t[0] == s[1]);
    } else {
        assert(limbs_value(t) == 0);
    }
    assert(limb_base() * limbs_value(t) == 0);
}

proof fn lemma_limbs_value_positive(s: Seq<u64>)
    requires
        exists|i: int| 0 <= i < s.len() && s[i] != 0,
    ensures
        limbs_value(s) >= 1,
    decreases s.len(),
{
    let t = s.subrange(1, s.len() as int);
    if s[0] == 0 {
        let i = choose|i: int| 0 <= i < s.len() && s[i] != 0;
        assert(t[i - 1] != 0);
        lemma_limbs_value_positive(t);
        assert(limb_base() * limbs_value(t) >= 1) by (nonlinear_arith)
            requires
                limbs_value(t) >= 1,
        ;
    }
}

proof fn lemma_limbs_value_zero_extend(s: Seq<u64>, w: Seq<u64>)
    requires
        s.len() <= w.len(),
        forall|i: int| 0 <= i < s.len() ==> w[i] == s[i],
        forall|i: int| s.len() <= i < w.len() ==> w[i] == 0,
    ensures
        limbs_value(w) == limbs_value(s),
{
    lemma_limbs_value_split(w, s.len());
    assert(w.subrange(0, s.len() as int) =~= s);
    let hi = w.subrange(s.len() as int, w.len() as int);
    if hi.len() > 0 {
        assert forall|i: int| 1 <= i < hi.len() implies hi[i] == 0 by {
            assert(hi[i] == w[s.len() + i]);
        }
        lemma_limbs_value_small(hi);
        assert(hi[0] == w[s.len() as int]);
    } else {
        assert(limbs_value(hi) == 0);
    }
    let p = pow_limbs(s.len());
    assert(p * limbs_value(hi) == 0) by (nonlinear_arith)
        requires
            limbs_value(hi) == 0,
    ;
}

/// The bound of every `U256`.
pub proof fn lemma_u256_bound(x: U256)
    ensures
        x.value() < u256_bound(),
{
    lemma_limbs_value_bound(x.limbs@);
    lemma_pow_limbs_four();
}

/// Relies on the `<` of primitive-types' `U256`, which compares limbs from the most significant.
#[verifier::external_body]
pub(crate) fn u256_lt(a: U256, b: U256) -> (r: bool)
    ensures
        r == (a.value() < b.value()),
{
    ethabi::ethereum_types::U256(a.limbs) < ethabi::ethereum_types::U256(b.limbs)
}

/// Relies on the `-` of primitive-types' `U256`, which panics when the result would be negative.
#[verifier::external_body]
pub(crate) fn u256_sub(a: U256, b: U256) -> (r: U256)
    requires
        a.value() >= b.value(),
    ensures
        r.value() == a.value() - b.value(),
{
    U256 { limbs: (ethabi::ethereum_types::U256(a.limbs) - ethabi::ethereum_types::U256(b.limbs)).0 }
}

/// Relies on the `+` of primitive-types' `U256`, which panics when the sum does not fit.
#[verifier::external_body]
pub(crate) fn u256_add(a: U256, b: U256) -> (r: U256)
    requires
        a.value() + b.value() < u256_bound(),
    ensures
        r.value() == a.value() + b.value(),
{
    U256 { limbs: (ethabi::ethereum_types::U256(a.limbs) + ethabi::ethereum_types::U256(b.limbs)).0 }
}

/// Relies on primitive-types' `U256::full_mul`: the exact 512-bit product.
#[verifier::external_body]
pub(crate) fn u256_full_mul(a: U256, b: U256) -> (r: U512)
    ensures
        r.value() == a.value() * b.value(),
{
    U512 { limbs: ethabi::ethereum_types::U256(a.limbs).full_mul(ethabi::ethereum_types::U256(b.limbs)).0 }
}

/// Relies on the `/` of primitive-types' `U512`: truncating division, which panics on a zero divisor.
#[verifier::external_body]
pub(crate) fn u512_div(a: U512, b: U512) -> (r: U512)
    requires
        b.value() > 0,
    ensures
        r.value() == a.value() / b.value(),
{
    U512 { limbs: (ethabi::ethereum_types::U512(a.limbs) / ethabi::ethereum_types::U512(b.limbs)).0 }
}

} // verus!
