use vstd::prelude::*;
use vstd::arithmetic::div_mod::{
    lemma_add_mod_noop, lemma_fundamental_div_mod, lemma_mod_bound, lemma_mod_multiples_basic,
    lemma_mod_multiples_vanish, lemma_mul_mod_noop_right, lemma_small_mod,
};
use vstd::arithmetic::mul::lemma_mul_is_distributive_add;
use vstd::arithmetic::power::pow;
use crate::bignum::{lemma_val_eq, nat_add, nat_modpow, nat_mul, nat_rem, nat_sub, Integer, Natural};

verus! {

/// Field addition: the sum of the residues, reduced modulo p.
pub open spec fn f_add(a: nat, b: nat, p: nat) -> nat {
    (a + b) % p
}

/// Field subtraction: the difference of the residues, reduced modulo p with a
/// non-negative result even when the raw difference is negative.
pub open spec fn f_sub(a: nat, b: nat, p: nat) -> nat {
    (((a as int) - (b as int)) % (p as int)) as nat
}

/// Field multiplication: the product of the residues, reduced modulo p.
pub open spec fn f_mul(a: nat, b: nat, p: nat) -> nat {
    (a * b) % p
}

/// Field exponentiation. The exponent, which may be any integer, is first
/// reduced modulo p - 1 (by Fermat's little theorem, exponents are only
/// meaningful modulo p - 1 for a prime p); the base is then raised to the
/// reduced exponent modulo p.
pub open spec fn f_pow(a: nat, e: int, p: nat) -> nat {
    (pow(a as int, (e % ((p - 1) as int)) as nat) % (p as int)) as nat
}

/// Field division: multiplication by the modular inverse, which is computed as
/// the (p - 2)-th power of the divisor by Fermat's little theorem.
pub open spec fn f_div(a: nat, b: nat, p: nat) -> nat {
    f_mul(a, f_pow(b, (p - 2) as int, p), p)
}

/// Field negation: the residue that sums with the argument to zero.
pub open spec fn f_neg(a: nat, p: nat) -> nat {
    (((p as int) - (a as int)) % (p as int)) as nat
}

/// One residue class modulo the field's prime, held in canonical form.
#[derive(Debug)]
pub struct FieldElement {
    pub num: Natural,
}

impl FieldElement {
    /// The canonical residue this element stands for.
    pub open spec fn val(&self) -> nat {
        self.num.val()
    }

    /// The stored value is canonical and lies in the half-open range [0, p).
    pub open spec fn wf(&self, p: nat) -> bool {
        self.num.wf() && self.num.val() < p
    }

    /// Constructs a field element, reducing the given integer modulo p so the
    /// range invariant holds structurally.
    pub fn new(num: Natural, p: &Natural) -> (r: FieldElement)
        requires
            p.val() > 0,
        ensures
            r.wf(p.val()),
            r.val() == num.val() % p.val(),
    {
        FieldElement { num: nat_rem(&num, p) }
    }

    /// A fresh element with the same value.
    pub fn duplicate(&self) -> (r: FieldElement)
        ensures
            r.num.limbs@ == self.num.limbs@,
    {
        FieldElement { num: self.num.duplicate() }
    }

    pub fn add(&self, other: &FieldElement, p: &Natural) -> (r: FieldElement)
        requires
            p.val() > 0,
        ensures
            r.wf(p.val()),
            r.val() == f_add(self.val(), other.val(), p.val()),
    {
        FieldElement { num: nat_rem(&nat_add(&self.num, &other.num), p) }
    }

    pub fn sub(&self, other: &FieldElement, p: &Natural) -> (r: FieldElement)
        requires
            p.val() > 0,
            other.val() <= p.val(),
        ensures
            r.wf(p.val()),
            r.val() == f_sub(self.val(), other.val(), p.val()),
    {
        let diff = nat_rem(&nat_add(&self.num, &nat_sub(p, &other.num)), p);
        proof {
            let a = self.val() as int;
            let b = other.val() as int;
            let q = p.val() as int;
            lemma_mod_multiples_vanish(1int, a - b, q);
            assert(q * 1 + (a - b) == a + (q - b));
        }
        FieldElement { num: diff }
    }

    pub fn mul(&self, other: &FieldElement, p: &Natural) -> (r: FieldElement)
        requires
            p.val() > 0,
        ensures
            r.wf(p.val()),
            r.val() == f_mul(self.val(), other.val(), p.val()),
    {
        FieldElement { num: nat_rem(&nat_mul(&self.num, &other.num), p) }
    }

    /// Modular exponentiation with an arbitrary (possibly negative) integer
    /// exponent, reduced modulo p - 1 before the power is taken.
    pub fn pow(&self, n: &Integer, p: &Natural) -> (r: FieldElement)
        requires
            n.wf(),
            p.val() >= 2,
        ensures
            r.wf(p.val()),
            r.val() == f_pow(self.val(), n.val(), p.val()),
    {
        let one = Natural::from_u64(1);
        let pm1 = nat_sub(p, &one);
        let m = nat_rem(&n.magnitude, &pm1);
        proof {
            if n.negative {
                lemma_neg_mod(n.magnitude.val(), (p.val() - 1) as nat);
            }
        }
        let reduced = if n.negative && !m.is_zero() {
            nat_sub(&pm1, &m)
        } else {
            m
        };
        proof {
            assert(reduced.val() == (n.val() % ((p.val() - 1) as int)) as nat);
        }
        FieldElement { num: nat_modpow(&self.num, &reduced, p) }
    }

    /// Field division, defined as multiplication by the modular inverse of the
    /// divisor; a zero divisor is undefined and excluded.
    pub fn div(&self, other: &FieldElement, p: &Natural) -> (r: FieldElement)
        requires
            p.val() >= 2,
            other.val() != 0,
        ensures
            r.wf(p.val()),
            r.val() == f_div(self.val(), other.val(), p.val()),
    {
        let two = Natural::from_u64(2);
        let pm2 = nat_sub(p, &two);
        let inverse = other.pow(&Integer::from_natural(pm2), p);
        self.mul(&inverse, p)
    }
}

impl PartialEq for FieldElement {
    fn eq(&self, other: &FieldElement) -> bool {
        self.num == other.num
    }
}

impl Eq for FieldElement {}

impl vstd::std_specs::cmp::PartialEqSpecImpl for FieldElement {
    open spec fn obeys_eq_spec() -> bool {
        true
    }

    open spec fn eq_spec(&self, other: &FieldElement) -> bool {
        self.num.limbs@ =~= other.num.limbs@
    }
}

/// Two canonical field elements stand for the same residue exactly when their
/// digits agree.
pub proof fn lemma_felt_eq(a: &FieldElement, b: &FieldElement, p: nat)
    requires
        a.wf(p),
        b.wf(p),
    ensures
        (a.num.limbs@ =~= b.num.limbs@) <==> (a.val() == b.val()),
{
    lemma_val_eq(&a.num, &b.num);
}

/// Reduction of a negated value: for m >= 0 and q > 0, the Euclidean remainder
/// of -m modulo q is zero when q divides m and q - (m % q) otherwise.
proof fn lemma_neg_mod(m: nat, q: nat)
    requires
        q > 0,
    ensures
        m % q == 0 ==> (-(m as int)) % (q as int) == 0,
        m % q != 0 ==> (-(m as int)) % (q as int) == q - m % q,
{
    let mi = m as int;
    let qi = q as int;
    lemma_fundamental_div_mod(mi, qi);
    let d = mi / qi;
    let r = mi % qi;
    if r == 0 {
        assert((-d) * qi == -(qi * d)) by (nonlinear_arith);
        assert(-mi == (-d) * qi);
        lemma_mod_multiples_basic(-d, qi);
    } else {
        assert(qi * (-(d + 1)) == -(qi * d) - qi) by (nonlinear_arith);
        assert(-mi == qi * (-(d + 1)) + (qi - r));
        lemma_mod_multiples_vanish(-(d + 1), qi - r, qi);
        lemma_small_mod((qi - r) as nat, q);
    }
}

/// Field addition is associative.
pub proof fn lemma_add_associative(a: nat, b: nat, c: nat, p: nat)
    requires
        p > 0,
        a < p,
        b < p,
        c < p,
    ensures
        f_add(f_add(a, b, p), c, p) == f_add(a, f_add(b, c, p), p),
{
    lemma_small_mod(a, p);
    lemma_small_mod(c, p);
    lemma_add_mod_noop((a + b) as int, c as int, p as int);
    lemma_add_mod_noop(a as int, (b + c) as int, p as int);
}

/// Field addition is commutative.
pub proof fn lemma_add_commutative(a: nat, b: nat, p: nat)
    ensures
        f_add(a, b, p) == f_add(b, a, p),
{
}

/// Zero is the identity of field addition.
pub proof fn lemma_add_identity(a: nat, p: nat)
    requires
        p > 0,
        a < p,
    ensures
        f_add(a, 0, p) == a,
{
    lemma_small_mod(a, p);
}

/// Field multiplication distributes over field addition.
pub proof fn lemma_mul_distributive(a: nat, b: nat, c: nat, p: nat)
    requires
        p > 0,
        a < p,
        b < p,
        c < p,
    ensures
        f_mul(a, f_add(b, c, p), p) == f_add(f_mul(a, b, p), f_mul(a, c, p), p),
{
    lemma_mul_mod_noop_right(a as int, (b + c) as int, p as int);
    lemma_mul_is_distributive_add(a as int, b as int, c as int);
    lemma_add_mod_noop((a * b) as int, (a * c) as int, p as int);
}

/// Fermat exponent reduction: raising to any integer exponent is the same as
/// raising to that exponent reduced modulo p - 1.
pub proof fn lemma_pow_exponent_reduction(a: nat, e: int, p: nat)
    requires
        p >= 2,
    ensures
        f_pow(a, e, p) == f_pow(a, e % ((p - 1) as int), p),
{
    let q = (p - 1) as int;
    lemma_mod_bound(e, q);
    lemma_small_mod((e % q) as nat, (p - 1) as nat);
}

} // verus!
