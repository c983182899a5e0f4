use elliptic_curve::bignum::Natural;
use elliptic_curve::curve::Curve;
use elliptic_curve::errors::{PointNotInTheCurve, ZeroScalarError};
use elliptic_curve::field_element::FieldElement;
use elliptic_curve::point::Point;

const P_DEC: &str = "115792089237316195423570985008687907853269984665640564039457584007908834671663";
const N_DEC: &str = "115792089237316195423570985008687907852837564279074904382605163141518161494337";
const GX_DEC: &str = "55066263022277343669578718895168534326250603453777594175500187360389116729240";
const GY_DEC: &str = "32670510020758816978083085130507043184471273380659243275938904335757337482424";

fn nat_dec(s: &str) -> Natural {
    let n = num_bigint::BigUint::parse_bytes(s.as_bytes(), 10).unwrap();
    Natural::from_limbs(n.to_u32_digits())
}

fn secp_curve() -> Curve {
    Curve::new(nat_dec(P_DEC), Natural::from_u64(0), Natural::from_u64(7)).unwrap()
}

fn felt_dec(s: &str, curve: &Curve) -> FieldElement {
    FieldElement::new(nat_dec(s), &curve.prime)
}

fn point_dec(x: &str, y: &str, curve: &Curve) -> Point {
    Point::new_point(felt_dec(x, curve), felt_dec(y, curve), curve).unwrap()
}

fn generator(curve: &Curve) -> Point {
    point_dec(GX_DEC, GY_DEC, curve)
}

#[test]
fn test_sum() {
    let curve = secp_curve();
    let g = generator(&curve);
    let other = point_dec(
        "89565891926547004231252920425935692360644145829622209833684329913297188986597",
        "12158399299693830322967808612713398636155367887041628176798871954788371653930",
        &curve,
    );
    assert_eq!(
        g.add(&other, &curve),
        point_dec(
            "112711660439710606056748659173929673102114977341539408544630613555209775888121",
            "25583027980570883691656905877401976406448868254816295069919888960541586679410",
            &curve,
        )
    );
}

#[test]
fn test_multiplication() {
    let curve = secp_curve();
    let g = generator(&curve);
    assert_eq!(
        g.mul(&Natural::from_u64(1245), &curve).unwrap(),
        point_dec(
            "16216027976566519154773591522616661330055461199350620083574692312367257363719",
            "38836197644273850215659763828493766955110790713669041342445922559152527550892",
            &curve,
        )
    );
}

#[test]
fn test_generator_point() {
    let curve = secp_curve();
    let g = generator(&curve);
    let result = g.mul(&nat_dec(N_DEC), &curve).unwrap();
    assert_eq!(result, Point::Infinity)
}

#[test]
fn test_identity_absorbed_on_both_sides() {
    let curve = secp_curve();
    let g = generator(&curve);
    assert_eq!(g.add(&Point::new_infinity(), &curve), g);
    assert_eq!(Point::new_infinity().add(&g, &curve), g);
    assert_eq!(
        Point::new_infinity().add(&Point::new_infinity(), &curve),
        Point::Infinity
    );
}

#[test]
fn test_adding_the_negated_point_gives_infinity() {
    let curve = secp_curve();
    let g = generator(&curve);
    let neg_y = {
        let p = num_bigint::BigUint::parse_bytes(P_DEC.as_bytes(), 10).unwrap();
        let y = num_bigint::BigUint::parse_bytes(GY_DEC.as_bytes(), 10).unwrap();
        Natural::from_limbs((p - y).to_u32_digits())
    };
    let neg_g = Point::new_point(
        felt_dec(GX_DEC, &curve),
        FieldElement::new(neg_y, &curve.prime),
        &curve,
    )
    .unwrap();
    assert_eq!(g.add(&neg_g, &curve), Point::Infinity);
}

#[test]
fn test_scalar_multiplication_distributes_over_scalar_addition() {
    let curve = secp_curve();
    let g = generator(&curve);
    let three = g.mul(&Natural::from_u64(3), &curve).unwrap();
    let four = g.mul(&Natural::from_u64(4), &curve).unwrap();
    let seven = g.mul(&Natural::from_u64(7), &curve).unwrap();
    assert_eq!(seven, three.add(&four, &curve));

    let one = g.mul(&Natural::from_u64(1), &curve).unwrap();
    let two = g.mul(&Natural::from_u64(2), &curve).unwrap();
    assert_eq!(three, one.add(&two, &curve));
}

#[test]
fn test_multiplication_matches_repeated_addition() {
    let curve = secp_curve();
    let g = generator(&curve);
    let by_doubling = g.mul(&Natural::from_u64(5), &curve).unwrap();
    let by_repetition = g
        .add(&g, &curve)
        .add(&g, &curve)
        .add(&g, &curve)
        .add(&g, &curve);
    assert_eq!(by_doubling, by_repetition);
}

#[test]
fn test_point_off_the_curve_is_rejected() {
    let curve = secp_curve();
    // same x as the generator, y off by one
    let bad = Point::new_point(
        felt_dec(GX_DEC, &curve),
        felt_dec(
            "32670510020758816978083085130507043184471273380659243275938904335757337482425",
            &curve,
        ),
        &curve,
    );
    assert_eq!(bad, Err(PointNotInTheCurve));

    let also_bad = Point::new_point(
        FieldElement::new(Natural::from_u64(5), &curve.prime),
        FieldElement::new(Natural::from_u64(9), &curve.prime),
        &curve,
    );
    assert_eq!(also_bad, Err(PointNotInTheCurve));
}

#[test]
fn test_new_point_from_ref_checks_the_same_equation() {
    let curve = secp_curve();
    let x = felt_dec(GX_DEC, &curve);
    let y = felt_dec(GY_DEC, &curve);
    let pt = Point::new_point_from_ref(&x, &y, &curve).unwrap();
    assert_eq!(pt, generator(&curve));
}

#[test]
fn test_multiplication_by_zero_is_rejected() {
    let curve = secp_curve();
    let g = generator(&curve);
    assert_eq!(g.mul(&Natural::from_u64(0), &curve), Err(ZeroScalarError));
}

#[test]
fn test_doubling_a_point() {
    let curve = secp_curve();
    let g = generator(&curve);
    let doubled = g.add(&g, &curve);
    assert_eq!(doubled, g.mul(&Natural::from_u64(2), &curve).unwrap());
}
