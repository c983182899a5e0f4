use vstd::prelude::*;

verus! {

/// Returned when a coordinate pair does not satisfy the curve equation.
#[derive(Debug, PartialEq, Eq)]
pub struct PointNotInTheCurve;

/// Returned when the configured field modulus fails the primality check
/// (or is two, which the short Weierstrass group law cannot use).
#[derive(Debug, PartialEq, Eq)]
pub struct NotPrimeError;

/// Returned when a point is multiplied by the scalar zero, which is rejected
/// as invalid input: the identity is reached only by using it directly.
#[derive(Debug, PartialEq, Eq)]
pub struct ZeroScalarError;

} // verus!
