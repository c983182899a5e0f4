use vstd::prelude::*;
use vstd::arithmetic::div_mod::{
    lemma_add_mod_noop, lemma_mod_multiples_basic, lemma_mod_multiples_vanish,
    lemma_mod_self_0, lemma_mul_mod_noop_left, lemma_small_mod,
};
use crate::bignum::Natural;
use crate::curve::Curve;
use crate::errors::{PointNotInTheCurve, ZeroScalarError};
use crate::field_element::{
    f_add, f_div, f_mul, f_neg, f_sub, lemma_felt_eq, FieldElement,
};

verus! {

/// An element of the elliptic-curve group: a finite point with its two
/// coordinates, or the group identity.
#[derive(Debug)]
pub enum Point {
    Point(FieldElement, FieldElement),
    Infinity,
}

/// The curve equation y^2 = x^3 + a*x + b, taken modulo p.
pub open spec fn on_curve(x: nat, y: nat, a: nat, b: nat, p: nat) -> bool {
    (y * y) % p == (x * x * x + a * x + b) % p
}

/// The group law on coordinate values (the identity is absorbed on either
/// side): mutually inverse points give the identity, as does doubling a point
/// whose tangent is vertical; distinct x-coordinates take the secant slope and
/// a doubled point takes the tangent slope, and the slope s gives the third
/// chord intersection x3 = s^2 - x1 - x2 (with x2 = x1 when doubling),
/// reflected to y3 = s*(x1 - x3) - y1.
pub open spec fn point_add_val(
    p1: Option<(nat, nat)>,
    p2: Option<(nat, nat)>,
    a: nat,
    p: nat,
) -> Option<(nat, nat)> {
    match (p1, p2) {
        (None, _) => p2,
        (_, None) => p1,
        (Some((x1, y1)), Some((x2, y2))) => {
            if x1 == x2 && y1 != y2 {
                None
            } else if x1 == x2 && y1 == y2 && y1 == 0 {
                None
            } else if x1 != x2 {
                let s = f_div(f_sub(y2, y1, p), f_sub(x2, x1, p), p);
                let x3 = f_sub(f_sub(f_mul(s, s, p), x1, p), x2, p);
                Some((x3, f_sub(f_mul(s, f_sub(x1, x3, p), p), y1, p)))
            } else {
                let s = f_div(f_add(f_mul(3, f_mul(x1, x1, p), p), a, p), f_mul(2, y1, p), p);
                let x3 = f_sub(f_mul(s, s, p), f_mul(2, x1, p), p);
                Some((x3, f_sub(f_mul(s, f_sub(x1, x3, p), p), y1, p)))
            }
        },
    }
}

/// Repeatedly halving the scalar while doubling the running point and
/// accumulating on odd bits: the double-and-add construction of scalar
/// multiplication, of which the accumulator holds the finished part.
pub open spec fn scalar_mul_val(
    cur: Option<(nat, nat)>,
    acc: Option<(nat, nat)>,
    k: nat,
    a: nat,
    p: nat,
) -> Option<(nat, nat)>
    decreases k,
{
    if k == 0 {
        acc
    } else {
        scalar_mul_val(
            point_add_val(cur, cur, a, p),
            if k % 2 == 1 {
                point_add_val(acc, cur, a, p)
            } else {
                acc
            },
            k / 2,
            a,
            p,
        )
    }
}

impl Point {
    /// The coordinate values, or nothing for the identity.
    pub open spec fn optval(&self) -> Option<(nat, nat)> {
        match self {
            Point::Point(x, y) => Some((x.val(), y.val())),
            Point::Infinity => None,
        }
    }

    /// The coordinates are held canonically.
    pub open spec fn canonical(&self) -> bool {
        match self {
            Point::Point(x, y) => x.num.wf() && y.num.wf(),
            Point::Infinity => true,
        }
    }

    /// Canonical coordinates, each a residue in [0, p).
    pub open spec fn wf(&self, p: nat) -> bool {
        self.canonical() && match self.optval() {
            Some((x, y)) => x < p && y < p,
            None => true,
        }
    }

    /// Returns the group identity.
    pub fn new_infinity() -> (r: Point)
        ensures
            r == Point::Infinity,
    {
        Point::Infinity
    }

    /// Validates the curve equation and admits only satisfying pairs; this is
    /// the sole gate establishing the curve-membership invariant.
    pub fn new_point_from_ref(x: &FieldElement, y: &FieldElement, curve: &Curve) -> (r: Result<
        Point,
        PointNotInTheCurve,
    >)
        requires
            curve.wf(),
            x.wf(curve.prime.val()),
            y.wf(curve.prime.val()),
        ensures
            r is Ok <==> on_curve(
                x.val(),
                y.val(),
                curve.a.val(),
                curve.b.val(),
                curve.prime.val(),
            ),
            r matches Ok(pt) ==> pt.wf(curve.prime.val()) && pt.optval() == Some(
                (x.val(), y.val()),
            ),
            r is Err ==> r == Err::<Point, PointNotInTheCurve>(PointNotInTheCurve),
    {
        let pr = &curve.prime;
        let lhs = y.mul(y, pr);
        let xsq = x.mul(x, pr);
        let xcu = xsq.mul(x, pr);
        let ax = curve.a.mul(x, pr);
        let sum = xcu.add(&ax, pr);
        let rhs = sum.add(&curve.b, pr);
        proof {
            let pv = curve.prime.val();
            let xv = x.val() as int;
            let av = curve.a.val() as int;
            let bv = curve.b.val() as int;
            lemma_mul_mod_noop_left(xv * xv, xv, pv as int);
            lemma_add_mod_noop(xv * xv * xv, av * xv, pv as int);
            lemma_small_mod(curve.b.val(), pv);
            lemma_add_mod_noop(xv * xv * xv + av * xv, bv, pv as int);
            lemma_felt_eq(&lhs, &rhs, pv);
        }
        if lhs == rhs {
            Ok(Point::Point(x.duplicate(), y.duplicate()))
        } else {
            Err(PointNotInTheCurve)
        }
    }

    /// Validates the curve equation and admits only satisfying pairs.
    pub fn new_point(x: FieldElement, y: FieldElement, curve: &Curve) -> (r: Result<
        Point,
        PointNotInTheCurve,
    >)
        requires
            curve.wf(),
            x.wf(curve.prime.val()),
            y.wf(curve.prime.val()),
        ensures
            r is Ok <==> on_curve(
                x.val(),
                y.val(),
                curve.a.val(),
                curve.b.val(),
                curve.prime.val(),
            ),
            r matches Ok(pt) ==> pt.wf(curve.prime.val()) && pt.optval() == Some(
                (x.val(), y.val()),
            ),
            r is Err ==> r == Err::<Point, PointNotInTheCurve>(PointNotInTheCurve),
    {
        Point::new_point_from_ref(&x, &y, curve)
    }

    /// A fresh point with the same coordinates.
    pub fn duplicate(&self) -> (r: Point)
        ensures
            r.optval() == self.optval(),
            r.canonical() == self.canonical(),
    {
        match self {
            Point::Point(x, y) => Point::Point(x.duplicate(), y.duplicate()),
            Point::Infinity => Point::Infinity,
        }
    }

    /// The group law: the result's coordinates are exactly those of the
    /// chord-and-tangent construction on the operands' coordinates.
    pub fn add(&self, other: &Point, curve: &Curve) -> (r: Point)
        requires
            curve.wf(),
            self.wf(curve.prime.val()),
            other.wf(curve.prime.val()),
        ensures
            r.wf(curve.prime.val()),
            r.optval() == point_add_val(
                self.optval(),
                other.optval(),
                curve.a.val(),
                curve.prime.val(),
            ),
    {
        let pr = &curve.prime;
        match (self, other) {
            (Point::Infinity, _) => other.duplicate(),
            (_, Point::Infinity) => self.duplicate(),
            (Point::Point(x1, y1), Point::Point(x2, y2)) => {
                proof {
                    lemma_felt_eq(x1, x2, curve.prime.val());
                    lemma_felt_eq(y1, y2, curve.prime.val());
                }
                if *x1 == *x2 {
                    if *y1 == *y2 {
                        if y1.num.is_zero() {
                            Point::Infinity
                        } else {
                            proof {
                                lemma_tangent_denominator(y1.val(), curve.prime.val());
                                lemma_mul_mod_noop_left(2int, y1.val() as int, curve.prime.val() as int);
                            }
                            let three = FieldElement::new(Natural::from_u64(3), pr);
                            let two = FieldElement::new(Natural::from_u64(2), pr);
                            let xsq = x1.mul(x1, pr);
                            let numer = three.mul(&xsq, pr).add(&curve.a, pr);
                            let denom = two.mul(y1, pr);
                            proof {
                                lemma_mul_mod_noop_left(3int, xsq.val() as int, curve.prime.val() as int);
                                lemma_mul_mod_noop_left(2int, x1.val() as int, curve.prime.val() as int);
                            }
                            let s = numer.div(&denom, pr);
                            let twox = two.mul(x1, pr);
                            let x3 = s.mul(&s, pr).sub(&twox, pr);
                            let y3 = s.mul(&x1.sub(&x3, pr), pr).sub(y1, pr);
                            Point::Point(x3, y3)
                        }
                    } else {
                        Point::Infinity
                    }
                } else {
                    proof {
                        lemma_sub_nonzero(x2.val(), x1.val(), curve.prime.val());
                    }
                    let s = y2.sub(y1, pr).div(&x2.sub(x1, pr), pr);
                    let x3 = s.mul(&s, pr).sub(x1, pr).sub(x2, pr);
                    let y3 = s.mul(&x1.sub(&x3, pr), pr).sub(y1, pr);
                    Point::Point(x3, y3)
                }
            },
        }
    }

    /// Double-and-add scalar multiplication over the bits of the scalar, least
    /// significant first; the zero scalar is rejected as invalid input.
    pub fn mul(&self, scalar: &Natural, curve: &Curve) -> (r: Result<Point, ZeroScalarError>)
        requires
            curve.wf(),
            self.wf(curve.prime.val()),
            scalar.wf(),
        ensures
            r is Err <==> scalar.val() == 0,
            r matches Ok(pt) ==> pt.wf(curve.prime.val()) && pt.optval() == scalar_mul_val(
                self.optval(),
                None::<(nat, nat)>,
                scalar.val(),
                curve.a.val(),
                curve.prime.val(),
            ),
    {
        if scalar.is_zero() {
            return Err(ZeroScalarError);
        }
        let ghost start = self.optval();
        let ghost total = scalar.val();
        let mut current = self.duplicate();
        let mut result = Point::Infinity;
        let mut coef = scalar.duplicate();
        while !coef.is_zero()
            invariant
                curve.wf(),
                coef.wf(),
                current.wf(curve.prime.val()),
                result.wf(curve.prime.val()),
                scalar_mul_val(
                    current.optval(),
                    result.optval(),
                    coef.val(),
                    curve.a.val(),
                    curve.prime.val(),
                ) == scalar_mul_val(start, None::<(nat, nat)>, total, curve.a.val(), curve.prime.val()),
            decreases coef.val(),
        {
            let ghost c0 = coef.val();
            let ghost cur0 = current.optval();
            let ghost res0 = result.optval();
            if coef.is_odd() {
                result = result.add(&current, curve);
            }
            current = current.add(&current, curve);
            coef = crate::bignum::nat_shr1(&coef);
            proof {
                let av = curve.a.val();
                let pv = curve.prime.val();
                assert(scalar_mul_val(cur0, res0, c0, av, pv) == scalar_mul_val(
                    point_add_val(cur0, cur0, av, pv),
                    if c0 % 2 == 1 {
                        point_add_val(res0, cur0, av, pv)
                    } else {
                        res0
                    },
                    c0 / 2,
                    av,
                    pv,
                ));
            }
        }
        Ok(result)
    }
}

impl PartialEq for Point {
    fn eq(&self, other: &Point) -> bool {
        match (self, other) {
            (Point::Point(x1, y1), Point::Point(x2, y2)) => *x1 == *x2 && *y1 == *y2,
            (Point::Infinity, Point::Infinity) => true,
            _ => false,
        }
    }
}

impl Eq for Point {}

impl vstd::std_specs::cmp::PartialEqSpecImpl for Point {
    open spec fn obeys_eq_spec() -> bool {
        true
    }

    open spec fn eq_spec(&self, other: &Point) -> bool {
        match (self, other) {
            (Point::Point(x1, y1), Point::Point(x2, y2)) => x1.num.limbs@ =~= x2.num.limbs@
                && y1.num.limbs@ =~= y2.num.limbs@,
            (Point::Infinity, Point::Infinity) => true,
            _ => false,
        }
    }
}

/// The field difference of two distinct residues is nonzero.
proof fn lemma_sub_nonzero(a: nat, b: nat, p: nat)
    requires
        a < p,
        b < p,
        a != b,
    ensures
        f_sub(a, b, p) != 0,
{
    if a > b {
        lemma_small_mod((a - b) as nat, p);
    } else {
        lemma_mod_multiples_vanish(1int, a as int - b as int, p as int);
        lemma_small_mod((a - b + p) as nat, p);
    }
}

/// Doubling a nonzero residue of an odd field gives a nonzero residue, so the
/// tangent slope's denominator is invertible.
proof fn lemma_tangent_denominator(y: nat, p: nat)
    requires
        0 < y < p,
        p % 2 == 1,
    ensures
        f_mul(2, y, p) != 0,
{
    if 2 * y < p {
        lemma_small_mod(2 * y, p);
    } else {
        lemma_mod_multiples_vanish(1int, 2 * y as int - p as int, p as int);
        lemma_small_mod((2 * y - p) as nat, p);
        if 2 * y == p {
            lemma_mod_multiples_basic(y as int, 2int);
        }
    }
}

/// The identity law: adding the group identity on either side returns the
/// other operand unchanged.
pub proof fn lemma_add_identity_point(q: Option<(nat, nat)>, a: nat, p: nat)
    ensures
        point_add_val(q, None::<(nat, nat)>, a, p) == q,
        point_add_val(None::<(nat, nat)>, q, a, p) == q,
{
}

/// Multiplying by one returns the point unchanged: one unfolding of the
/// double-and-add recursion.
pub proof fn lemma_scalar_mul_one(q: Option<(nat, nat)>, a: nat, p: nat)
    ensures
        scalar_mul_val(q, None::<(nat, nat)>, 1, a, p) == q,
{
    assert(scalar_mul_val(q, None::<(nat, nat)>, 1, a, p) == scalar_mul_val(
        point_add_val(q, q, a, p),
        point_add_val(None::<(nat, nat)>, q, a, p),
        0,
        a,
        p,
    ));
}

/// Multiplying by two is one point doubling: two unfoldings of the
/// double-and-add recursion.
pub proof fn lemma_scalar_mul_two(q: Option<(nat, nat)>, a: nat, p: nat)
    ensures
        scalar_mul_val(q, None::<(nat, nat)>, 2, a, p) == point_add_val(q, q, a, p),
{
    let doubled = point_add_val(q, q, a, p);
    assert(scalar_mul_val(q, None::<(nat, nat)>, 2, a, p) == scalar_mul_val(
        doubled,
        None::<(nat, nat)>,
        1,
        a,
        p,
    ));
    lemma_scalar_mul_one(doubled, a, p);
}

/// The inverse law: a point plus the point with the same x and negated y is
/// the group identity.
pub proof fn lemma_add_inverse_point(x: nat, y: nat, a: nat, p: nat)
    requires
        p > 2,
        p % 2 == 1,
        x < p,
        y < p,
    ensures
        point_add_val(Some((x, y)), Some((x, f_neg(y, p))), a, p) == None::<(nat, nat)>,
{
    if y == 0 {
        lemma_mod_self_0(p as int);
        assert(f_neg(y, p) == 0);
    } else {
        lemma_small_mod((p - y) as nat, p);
        assert(f_neg(y, p) == p - y);
        if p - y == y {
            lemma_mod_multiples_basic(y as int, 2int);
            assert(false);
        }
    }
}

} // verus!
