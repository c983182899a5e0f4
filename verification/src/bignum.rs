use vstd::prelude::*;
use vstd::arithmetic::div_mod::{
    lemma_fundamental_div_mod, lemma_mod_multiples_vanish, lemma_small_mod,
};
use vstd::arithmetic::power::pow;

verus! {

/// The integer that a little-endian sequence of base-2^32 digits stands for.
pub open spec fn limbs_val(s: Seq<u32>) -> nat
    decreases s.len(),
{
    if s.len() == 0 {
        0
    } else {
        s[0] as nat + 0x1_0000_0000nat * limbs_val(s.skip(1))
    }
}

/// An arbitrary-precision non-negative integer, held as little-endian base-2^32
/// digits with no zero digit at the most significant end.
#[derive(Debug)]
pub struct Natural {
    pub limbs: Vec<u32>,
}

impl Natural {
    /// The integer this value stands for.
    pub open spec fn val(&self) -> nat {
        limbs_val(self.limbs@)
    }

    /// Canonical form: no zero digit at the most significant end, so that two
    /// values stand for the same integer exactly when their digits are equal.
    pub open spec fn wf(&self) -> bool {
        self.limbs@.len() == 0 || self.limbs@.last() != 0
    }
}

/// Appending a zero digit at the most significant end does not change the value.
proof fn lemma_limbs_val_push_zero(s: Seq<u32>)
    ensures
        limbs_val(s.push(0u32)) == limbs_val(s),
    decreases s.len(),
{
    if s.len() == 0 {
        assert(s.push(0u32).skip(1) =~= Seq::<u32>::empty());
        assert(limbs_val(Seq::<u32>::empty()) == 0);
        assert(s.push(0u32)[0] == 0u32);
        assert(limbs_val(s.push(0u32)) == 0);
    } else {
        assert(s.push(0u32).skip(1) =~= s.skip(1).push(0u32));
        lemma_limbs_val_push_zero(s.skip(1));
    }
}

/// A canonical, non-empty digit sequence stands for a positive integer.
pub proof fn lemma_limbs_val_pos(s: Seq<u32>)
    requires
        s.len() > 0,
        s.last() != 0,
    ensures
        limbs_val(s) > 0,
    decreases s.len(),
{
    if s.len() == 1 {
        assert(s.skip(1) =~= Seq::<u32>::empty());
        assert(limbs_val(Seq::<u32>::empty()) == 0);
        assert(limbs_val(s) == s[0] as nat);
    } else {
        let r = s.skip(1);
        assert(r.last() == s.last());
        lemma_limbs_val_pos(r);
    }
}

/// With two or more canonical digits the value is at least 2^32.
proof fn lemma_limbs_val_lower(s: Seq<u32>)
    requires
        s.len() >= 2,
        s.last() != 0,
    ensures
        limbs_val(s) >= 0x1_0000_0000,
{
    let r = s.skip(1);
    assert(r.last() == s.last());
    lemma_limbs_val_pos(r);
}

/// Canonical digit sequences are unique: equal values have equal digits.
pub proof fn lemma_limbs_val_unique(s: Seq<u32>, t: Seq<u32>)
    requires
        s.len() == 0 || s.last() != 0,
        t.len() == 0 || t.last() != 0,
        limbs_val(s) == limbs_val(t),
    ensures
        s =~= t,
    decreases s.len(),
{
    if s.len() == 0 {
        if t.len() > 0 {
            lemma_limbs_val_pos(t);
        }
        assert(s =~= t);
    } else if t.len() == 0 {
        lemma_limbs_val_pos(s);
    } else {
        let a = limbs_val(s.skip(1));
        let b = limbs_val(t.skip(1));
        assert(limbs_val(s) == s[0] as nat + 0x1_0000_0000nat * a);
        assert(limbs_val(t) == t[0] as nat + 0x1_0000_0000nat * b);
        lemma_mod_multiples_vanish(a as int, s[0] as int, 0x1_0000_0000int);
        lemma_mod_multiples_vanish(b as int, t[0] as int, 0x1_0000_0000int);
        lemma_small_mod(s[0] as nat, 0x1_0000_0000nat);
        lemma_small_mod(t[0] as nat, 0x1_0000_0000nat);
        assert(s[0] == t[0]);
        assert(a == b);
        if s.len() == 1 {
            assert(s.skip(1) =~= Seq::<u32>::empty());
        } else {
            assert(s.skip(1).last() == s.last());
        }
        if t.len() == 1 {
            assert(t.skip(1) =~= Seq::<u32>::empty());
        } else {
            assert(t.skip(1).last() == t.last());
        }
        lemma_limbs_val_unique(s.skip(1), t.skip(1));
        assert(s.len() == t.len());
        assert forall|i: int| 0 <= i < s.len() implies s[i] == t[i] by {
            if i > 0 {
                assert(s.skip(1)[i - 1] == t.skip(1)[i - 1]);
                assert(s[i] == s.skip(1)[i - 1]);
                assert(t[i] == t.skip(1)[i - 1]);
            }
        }
        assert(s =~= t);
    }
}

/// Two canonical values stand for the same integer exactly when their digits agree.
pub proof fn lemma_val_eq(a: &Natural, b: &Natural)
    requires
        a.wf(),
        b.wf(),
    ensures
        (a.val() == b.val()) <==> (a.limbs@ =~= b.limbs@),
{
    if a.val() == b.val() {
        lemma_limbs_val_unique(a.limbs@, b.limbs@);
    }
    if a.limbs@ =~= b.limbs@ {
        assert(a.limbs@ == b.limbs@);
    }
}

/// The parity of the value is the parity of the least significant digit.
proof fn lemma_limbs_val_parity(s: Seq<u32>)
    requires
        s.len() > 0,
    ensures
        limbs_val(s) % 2 == s[0] as nat % 2,
{
    let r = limbs_val(s.skip(1));
    assert(limbs_val(s) == s[0] as nat + 0x1_0000_0000nat * r);
    lemma_mod_multiples_vanish(0x8000_0000 * r as int, s[0] as int, 2int);
    assert(2int * (0x8000_0000 * r as int) == 0x1_0000_0000int * r as int);
}

impl Natural {
    /// Strips zero digits from the most significant end, so that the stored
    /// digits are the canonical form of the given value.
    pub fn from_limbs(limbs: Vec<u32>) -> (r: Natural)
        ensures
            r.wf(),
            r.val() == limbs_val(limbs@),
    {
        let mut v = limbs;
        while v.len() > 0 && v[v.len() - 1] == 0
            invariant
                limbs_val(v@) == limbs_val(limbs@),
            decreases v.len(),
        {
            let ghost prev = v@;
            v.pop();
            proof {
                assert(prev =~= v@.push(0u32));
                lemma_limbs_val_push_zero(v@);
            }
        }
        Natural { limbs: v }
    }

    pub fn from_u64(n: u64) -> (r: Natural)
        ensures
            r.wf(),
            r.val() == n,
    {
        let lo: u32 = (n % 0x1_0000_0000) as u32;
        let hi: u32 = (n / 0x1_0000_0000) as u32;
        let mut limbs: Vec<u32> = Vec::new();
        limbs.push(lo);
        limbs.push(hi);
        proof {
            assert(limbs@ =~= seq![lo, hi]);
            assert(limbs@.skip(1) =~= seq![hi]);
            assert(seq![hi].skip(1) =~= Seq::<u32>::empty());
            assert(limbs_val(Seq::<u32>::empty()) == 0);
            assert(limbs_val(seq![hi]) == hi as nat);
            assert(limbs_val(limbs@) == lo as nat + 0x1_0000_0000nat * hi as nat);
            lemma_fundamental_div_mod(n as int, 0x1_0000_0000int);
        }
        Self::from_limbs(limbs)
    }

    pub fn is_zero(&self) -> (r: bool)
        requires
            self.wf(),
        ensures
            r == (self.val() == 0),
    {
        proof {
            if self.limbs@.len() > 0 {
                lemma_limbs_val_pos(self.limbs@);
            }
        }
        self.limbs.len() == 0
    }

    pub fn is_odd(&self) -> (r: bool)
        ensures
            r == (self.val() % 2 == 1),
    {
        if self.limbs.len() == 0 {
            false
        } else {
            proof {
                lemma_limbs_val_parity(self.limbs@);
            }
            self.limbs[0] % 2 == 1
        }
    }

    /// Whether the value exceeds a small bound.
    pub fn gt_u32(&self, c: u32) -> (r: bool)
        requires
            self.wf(),
        ensures
            r == (self.val() > c),
    {
        if self.limbs.len() == 0 {
            false
        } else if self.limbs.len() == 1 {
            proof {
                assert(self.limbs@.skip(1) =~= Seq::<u32>::empty());
                assert(limbs_val(Seq::<u32>::empty()) == 0);
                assert(self.val() == self.limbs@[0] as nat);
            }
            self.limbs[0] > c
        } else {
            proof {
                lemma_limbs_val_lower(self.limbs@);
            }
            true
        }
    }

    /// A fresh value with the same digits.
    pub fn duplicate(&self) -> (r: Natural)
        ensures
            r.limbs@ == self.limbs@,
    {
        let mut v: Vec<u32> = Vec::new();
        let mut i: usize = 0;
        while i < self.limbs.len()
            invariant
                i <= self.limbs.len(),
                v@ =~= self.limbs@.take(i as int),
            decreases self.limbs.len() - i,
        {
            v.push(self.limbs[i]);
            i = i + 1;
        }
        proof {
            assert(v@ =~= self.limbs@);
        }
        Natural { limbs: v }
    }
}

fn eq_limbs(a: &Vec<u32>, b: &Vec<u32>) -> (r: bool)
    ensures
        r == (a@ =~= b@),
{
    if a.len() != b.len() {
        return false;
    }
    let mut i: usize = 0;
    while i < a.len()
        invariant
            i <= a.len(),
            a@.len() == b@.len(),
            forall|j: int| 0 <= j < i ==> a@[j] == b@[j],
        decreases a.len() - i,
    {
        if a[i] != b[i] {
            return false;
        }
        i = i + 1;
    }
    true
}

impl PartialEq for Natural {
    fn eq(&self, other: &Natural) -> bool {
        eq_limbs(&self.limbs, &other.limbs)
    }
}

impl Eq for Natural {}

impl vstd::std_specs::cmp::PartialEqSpecImpl for Natural {
    open spec fn obeys_eq_spec() -> bool {
        true
    }

    open spec fn eq_spec(&self, other: &Natural) -> bool {
        self.limbs@ =~= other.limbs@
    }
}

/// A signed arbitrary-precision integer: a sign and a magnitude.
#[derive(Debug)]
pub struct Integer {
    pub negative: bool,
    pub magnitude: Natural,
}

impl Integer {
    /// The integer this value stands for.
    pub open spec fn val(&self) -> int {
        if self.negative {
            -(self.magnitude.val() as int)
        } else {
            self.magnitude.val() as int
        }
    }

    /// Canonical form: the magnitude is canonical and zero is never negative.
    pub open spec fn wf(&self) -> bool {
        self.magnitude.wf() && (self.negative ==> self.magnitude.val() > 0)
    }

    pub fn from_natural(magnitude: Natural) -> (r: Integer)
        requires
            magnitude.wf(),
        ensures
            r.wf(),
            r.val() == magnitude.val(),
    {
        Integer { negative: false, magnitude }
    }

    pub fn new(negative: bool, magnitude: Natural) -> (r: Integer)
        requires
            magnitude.wf(),
        ensures
            r.wf(),
            r.val() == if negative {
                -(magnitude.val() as int)
            } else {
                magnitude.val() as int
            },
    {
        let neg = negative && !magnitude.is_zero();
        Integer { negative: neg, magnitude }
    }
}

/// Relies on num_bigint::BigUint addition; `BigUint::new` and `to_u32_digits`
/// convert between the value and its little-endian base-2^32 digits.
#[verifier::external_body]
pub fn nat_add(a: &Natural, b: &Natural) -> (r: Natural)
    ensures
        r.wf(),
        r.val() == a.val() + b.val(),
{
    let x = num_bigint::BigUint::new(a.limbs.clone());
    let y = num_bigint::BigUint::new(b.limbs.clone());
    Natural { limbs: (x + y).to_u32_digits() }
}

/// Relies on num_bigint::BigUint subtraction, which requires that the
/// subtrahend is no larger than the minuend.
#[verifier::external_body]
pub fn nat_sub(a: &Natural, b: &Natural) -> (r: Natural)
    requires
        b.val() <= a.val(),
    ensures
        r.wf(),
        r.val() == a.val() - b.val(),
{
    let x = num_bigint::BigUint::new(a.limbs.clone());
    let y = num_bigint::BigUint::new(b.limbs.clone());
    Natural { limbs: (x - y).to_u32_digits() }
}

/// Relies on num_bigint::BigUint multiplication.
#[verifier::external_body]
pub fn nat_mul(a: &Natural, b: &Natural) -> (r: Natural)
    ensures
        r.wf(),
        r.val() == a.val() * b.val(),
{
    let x = num_bigint::BigUint::new(a.limbs.clone());
    let y = num_bigint::BigUint::new(b.limbs.clone());
    Natural { limbs: (x * y).to_u32_digits() }
}

/// Relies on num_bigint::BigUint remainder, which requires a nonzero divisor.
#[verifier::external_body]
pub fn nat_rem(a: &Natural, b: &Natural) -> (r: Natural)
    requires
        b.val() > 0,
    ensures
        r.wf(),
        r.val() == a.val() % b.val(),
{
    let x = num_bigint::BigUint::new(a.limbs.clone());
    let y = num_bigint::BigUint::new(b.limbs.clone());
    Natural { limbs: (x % y).to_u32_digits() }
}

/// Relies on num_bigint::BigUint `>>`: shifting right by one bit halves the
/// value, rounding down.
#[verifier::external_body]
pub fn nat_shr1(a: &Natural) -> (r: Natural)
    ensures
        r.wf(),
        r.val() == a.val() / 2,
{
    let x = num_bigint::BigUint::new(a.limbs.clone());
    Natural { limbs: (x >> 1u32).to_u32_digits() }
}

/// Relies on num_bigint::BigUint::modpow, which returns
/// `(self ^ exponent) % modulus` and requires a nonzero modulus.
#[verifier::external_body]
pub fn nat_modpow(base: &Natural, exponent: &Natural, modulus: &Natural) -> (r: Natural)
    requires
        modulus.val() > 1,
    ensures
        r.wf(),
        r.val() < modulus.val(),
        r.val() as int == pow(base.val() as int, exponent.val()) % (modulus.val() as int),
{
    let x = num_bigint::BigUint::new(base.limbs.clone());
    let e = num_bigint::BigUint::new(exponent.limbs.clone());
    let m = num_bigint::BigUint::new(modulus.limbs.clone());
    Natural { limbs: x.modpow(&e, &m).to_u32_digits() }
}

} // verus!
