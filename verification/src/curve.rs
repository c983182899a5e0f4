use vstd::prelude::*;
use crate::bignum::Natural;
use crate::errors::NotPrimeError;
use crate::field_element::FieldElement;

verus! {

/// Mathematical primality: at least two, with no divisor strictly between one
/// and itself.
pub open spec fn is_prime(n: nat) -> bool {
    n >= 2 && forall|d: nat| 1 < d < n ==> #[trigger] (n % d) != 0
}

/// Relies on num_bigint_dig::prime::probably_prime (trial division, Miller-Rabin
/// and a Lucas test): it never reports a prime as composite, is exact for values
/// below 2^64, and accepts no even value besides two; `BigUint::new` converts
/// from little-endian base-2^32 digits.
#[verifier::external_body]
fn passes_primality_test(n: &Natural) -> (r: bool)
    ensures
        is_prime(n.val()) ==> r,
        r ==> n.val() >= 2,
        r ==> (n.val() == 2 || n.val() % 2 == 1),
{
    let x = num_bigint_dig::BigUint::new(n.limbs.clone());
    num_bigint_dig::prime::probably_prime(&x, 20)
}

/// The read-only configuration of one short Weierstrass curve
/// y^2 = x^3 + a*x + b over the prime field modulo `prime`: constructed once,
/// then shared by every field and point operation.
pub struct Curve {
    pub prime: Natural,
    pub a: FieldElement,
    pub b: FieldElement,
}

impl Curve {
    /// The modulus is canonical, odd and above two (the group law divides by
    /// doubled coordinates, which characteristic two cannot support), and the
    /// coefficients are reduced field elements.
    pub open spec fn wf(&self) -> bool {
        &&& self.prime.wf()
        &&& self.prime.val() > 2
        &&& self.prime.val() % 2 == 1
        &&& self.a.wf(self.prime.val())
        &&& self.b.wf(self.prime.val())
    }

    /// Validates the modulus once, at configuration time, and reduces the two
    /// coefficients into the field. A modulus that fails the primality check is
    /// rejected, as is two: every prime modulus above two is accepted.
    pub fn new(prime: Natural, a: Natural, b: Natural) -> (r: Result<Curve, NotPrimeError>)
        requires
            prime.wf(),
        ensures
            is_prime(prime.val()) && prime.val() > 2 ==> r is Ok,
            r is Err ==> !is_prime(prime.val()) || prime.val() == 2,
            r matches Ok(c) ==> {
                &&& c.wf()
                &&& c.prime == prime
                &&& c.a.val() == a.val() % prime.val()
                &&& c.b.val() == b.val() % prime.val()
            },
    {
        if !passes_primality_test(&prime) {
            return Err(NotPrimeError);
        }
        if !prime.gt_u32(2) {
            return Err(NotPrimeError);
        }
        let a_reduced = FieldElement::new(a, &prime);
        let b_reduced = FieldElement::new(b, &prime);
        Ok(Curve { prime, a: a_reduced, b: b_reduced })
    }
}

} // verus!
