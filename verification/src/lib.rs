//! Verified arithmetic for elliptic-curve cryptography over a prime field: a
//! field-element type with the four field operations and modular
//! exponentiation, and a curve-point type implementing the group law
//! (addition, doubling, scalar multiplication) for short Weierstrass curves
//! y^2 = x^3 + a*x + b mod p. Big-integer arithmetic is carried by num_bigint
//! behind trusted wrappers; every field and group operation above it carries a
//! proved contract over the mathematical values.

pub mod bignum;
pub mod curve;
pub mod errors;
pub mod field_element;
pub mod point;
