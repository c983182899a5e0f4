use elliptic_curve::bignum::{Integer, Natural};
use elliptic_curve::curve::Curve;
use elliptic_curve::errors::NotPrimeError;
use elliptic_curve::field_element::FieldElement;

const P_DEC: &str = "115792089237316195423570985008687907853269984665640564039457584007908834671663";

fn nat_dec(s: &str) -> Natural {
    let n = num_bigint::BigUint::parse_bytes(s.as_bytes(), 10).unwrap();
    Natural::from_limbs(n.to_u32_digits())
}

fn secp_curve() -> Curve {
    Curve::new(nat_dec(P_DEC), Natural::from_u64(0), Natural::from_u64(7)).unwrap()
}

fn felt(n: u64, curve: &Curve) -> FieldElement {
    FieldElement::new(Natural::from_u64(n), &curve.prime)
}

fn felt_dec(s: &str, curve: &Curve) -> FieldElement {
    FieldElement::new(nat_dec(s), &curve.prime)
}

/// The big integer p - k, for a small k.
fn nat_p_minus(k: u32) -> Natural {
    let p = num_bigint::BigUint::parse_bytes(P_DEC.as_bytes(), 10).unwrap();
    Natural::from_limbs((p - k).to_u32_digits())
}

#[test]
fn test_add_two_finite_field_elements() {
    let curve = secp_curve();
    let first_field_element = felt(11, &curve);
    let second_field_element = felt(11, &curve);

    assert_eq!(
        first_field_element.add(&second_field_element, &curve.prime),
        felt(22, &curve)
    );
}

#[test]
fn test_sub_two_finite_field_elements() {
    let curve = secp_curve();
    let first_field_element = felt(20, &curve);
    let second_field_element = felt(3, &curve);

    assert_eq!(
        first_field_element.sub(&second_field_element, &curve.prime),
        felt(17, &curve)
    );
}

#[test]
fn test_add_wraps_around_the_modulus() {
    let curve = secp_curve();
    let almost = FieldElement::new(nat_p_minus(1), &curve.prime);
    let two = felt(2, &curve);
    assert_eq!(almost.add(&two, &curve.prime), felt(1, &curve));
}

#[test]
fn test_sub_with_negative_raw_difference() {
    let curve = secp_curve();
    let three = felt(3, &curve);
    let five = felt(5, &curve);
    let expected = FieldElement::new(nat_p_minus(2), &curve.prime);
    assert_eq!(three.sub(&five, &curve.prime), expected);
}

#[test]
fn test_new_reduces_into_range() {
    let curve = secp_curve();
    let p_plus_five = {
        let p = num_bigint::BigUint::parse_bytes(P_DEC.as_bytes(), 10).unwrap();
        Natural::from_limbs((p + 5u32).to_u32_digits())
    };
    assert_eq!(FieldElement::new(p_plus_five, &curve.prime), felt(5, &curve));
}

#[test]
fn test_addition_laws_on_values() {
    let curve = secp_curve();
    let p = &curve.prime;
    let a = felt_dec("98765432109876543210987654321", &curve);
    let b = FieldElement::new(nat_p_minus(3), &curve.prime);
    let c = felt(7, &curve);
    // associativity
    assert_eq!(a.add(&b, p).add(&c, p), a.add(&b.add(&c, p), p));
    // commutativity
    assert_eq!(a.add(&b, p), b.add(&a, p));
    // identity
    assert_eq!(a.add(&felt(0, &curve), p), a);
    // distributivity
    assert_eq!(
        a.mul(&b.add(&c, p), p),
        a.mul(&b, p).add(&a.mul(&c, p), p)
    );
}

#[test]
fn test_multiplicative_inverse_law() {
    let curve = secp_curve();
    let a = felt_dec("1234567890123456789", &curve);
    let exponent = Integer::from_natural(nat_p_minus(2));
    let inverse = a.pow(&exponent, &curve.prime);
    assert_eq!(a.mul(&inverse, &curve.prime), felt(1, &curve));
}

#[test]
fn test_pow_exact_value() {
    let curve = secp_curve();
    let two = felt(2, &curve);
    let ten = Integer::from_natural(Natural::from_u64(10));
    assert_eq!(two.pow(&ten, &curve.prime), felt(1024, &curve));
}

#[test]
fn test_pow_exponent_reduction() {
    let curve = secp_curve();
    let a = felt_dec("314159265358979323846", &curve);
    // exponent p - 1 + 5 reduces to 5
    let p = num_bigint::BigUint::parse_bytes(P_DEC.as_bytes(), 10).unwrap();
    let big_exp = Integer::from_natural(Natural::from_limbs((p + 4u32).to_u32_digits()));
    let small_exp = Integer::from_natural(Natural::from_u64(5));
    assert_eq!(a.pow(&big_exp, &curve.prime), a.pow(&small_exp, &curve.prime));
}

#[test]
fn test_pow_negative_exponent() {
    let curve = secp_curve();
    let a = felt_dec("987654321987654321", &curve);
    let minus_one = Integer::new(true, Natural::from_u64(1));
    let inverse = a.pow(&minus_one, &curve.prime);
    assert_eq!(a.mul(&inverse, &curve.prime), felt(1, &curve));
}

#[test]
fn test_div_exact_value() {
    let curve = secp_curve();
    let six = felt(6, &curve);
    let three = felt(3, &curve);
    assert_eq!(six.div(&three, &curve.prime), felt(2, &curve));
}

#[test]
fn test_composite_modulus_is_rejected() {
    let result = Curve::new(Natural::from_u64(15), Natural::from_u64(0), Natural::from_u64(7));
    assert!(matches!(result, Err(NotPrimeError)));
}

#[test]
fn test_modulus_two_is_rejected() {
    let result = Curve::new(Natural::from_u64(2), Natural::from_u64(0), Natural::from_u64(1));
    assert!(matches!(result, Err(NotPrimeError)));
}

#[test]
fn test_small_odd_prime_modulus_is_accepted() {
    let curve = Curve::new(Natural::from_u64(23), Natural::from_u64(24), Natural::from_u64(7))
        .unwrap();
    // the coefficient 24 is reduced into the field
    assert_eq!(curve.a, FieldElement::new(Natural::from_u64(1), &curve.prime));
}

#[test]
fn test_canonical_form_ignores_leading_zero_digits() {
    let padded = Natural::from_limbs(vec![5, 0, 0]);
    assert_eq!(padded, Natural::from_u64(5));
}
