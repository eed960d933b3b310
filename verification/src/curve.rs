//! Points of a short Weierstrass curve and their group law.

use vstd::prelude::*;
use crate::errors::ArithmeticError;
use crate::field::{div, div_spec, FieldElement};

verus! {

/// The curve `y^2 = x^3 + a*x + b` over the field with parameters `field`.
///
/// The group law is that of an elliptic curve where the curve is
/// non-singular, `4*a^3 + 27*b^2 != 0`; that is for the caller to see to.
pub struct Curve<F: FieldElement> {
    /// The coefficient of `x`.
    pub a: F,
    /// The constant term.
    pub b: F,
    /// The parameters of the coordinate field.
    pub field: F::Field,
}

/// A point of a curve: the point at infinity, or a pair of coordinates.
#[derive(Debug, PartialEq, Eq)]
pub enum Point<F> {
    /// The neutral element of the group, the point at infinity.
    Identity,
    /// The point with the coordinates `(x, y)`.
    Affine(F, F),
}

impl<F: Copy> Clone for Point<F> {
    fn clone(&self) -> (r: Self)
        ensures
            r == *self,
    {
        *self
    }
}

impl<F: Copy> Copy for Point<F> {

}

impl<F: FieldElement> Curve<F> {
    /// The field parameters are usable and the coefficients are reduced.
    pub open spec fn wf(self) -> bool {
        &&& F::field_wf(self.field)
        &&& self.a.wf(self.field)
        &&& self.b.wf(self.field)
    }

    /// The right-hand side of the curve equation, `x^3 + a*x + b`.
    pub open spec fn rhs_spec(self, x: F) -> F {
        let f = self.field;
        x.mul_spec(x, f).mul_spec(x, f).add_spec(self.a.mul_spec(x, f), f).add_spec(self.b, f)
    }

    /// Evaluates the right-hand side of the curve equation at `x`.
    pub fn rhs(&self, x: F) -> (r: F)
        requires
            self.wf(),
            x.wf(self.field),
        ensures
            r == self.rhs_spec(x),
            r.wf(self.field),
    {
        let f = &self.field;
        x.mul(x, f).mul(x, f).add(self.a.mul(x, f), f).add(self.b, f)
    }
}

impl<F: FieldElement> Point<F> {
    /// Whether the point is the identity.
    pub fn is_identity(&self) -> (r: bool)
        ensures
            r == (*self is Identity),
    {
        match self {
            Point::Identity => true,
            Point::Affine(_, _) => false,
        }
    }

    /// Whether two points are the same: both the identity, or both affine
    /// with the same reduced coordinates.
    pub fn equals(&self, other: &Point<F>) -> (r: bool)
        ensures
            r == (*self == *other),
    {
        match (self, other) {
            (Point::Identity, Point::Identity) => true,
            (Point::Affine(x1, y1), Point::Affine(x2, y2)) => x1.equals(*x2) && y1.equals(*y2),
            _ => false,
        }
    }

    /// The coordinates, if any, are reduced values of the curve's field.
    pub open spec fn wf(self, curve: Curve<F>) -> bool {
        match self {
            Point::Identity => true,
            Point::Affine(x, y) => x.wf(curve.field) && y.wf(curve.field),
        }
    }
}

/// The point satisfies the curve equation; the identity does by convention.
pub open spec fn on_curve<F: FieldElement>(p: Point<F>, curve: Curve<F>) -> bool {
    match p {
        Point::Identity => true,
        Point::Affine(x, y) => y.mul_spec(y, curve.field) == curve.rhs_spec(x),
    }
}

/// The slope of the tangent at `(x, y)`: `(3*x^2 + a) / (2*y)`.
pub open spec fn tangent_slope<F: FieldElement>(x: F, y: F, curve: Curve<F>) -> F {
    let f = curve.field;
    let xx = x.mul_spec(x, f);
    div_spec(xx.add_spec(xx, f).add_spec(xx, f).add_spec(curve.a, f), y.add_spec(y, f), f)
}

/// The slope of the chord from `(x1, y1)` to `(x2, y2)`:
/// `(y2 - y1) / (x2 - x1)`.
pub open spec fn chord_slope<F: FieldElement>(x1: F, y1: F, x2: F, y2: F, f: F::Field) -> F {
    div_spec(y2.sub_spec(y1, f), x2.sub_spec(x1, f), f)
}

/// The third point of the line of slope `slope` through `(x1, y1)` and a
/// point with abscissa `x2`, reflected: `x3 = slope^2 - x1 - x2` and
/// `y3 = slope * (x1 - x3) - y1`.
pub open spec fn third_point<F: FieldElement>(slope: F, x1: F, y1: F, x2: F, f: F::Field) -> Point<
    F,
> {
    let x3 = slope.mul_spec(slope, f).sub_spec(x1, f).sub_spec(x2, f);
    let y3 = slope.mul_spec(x1.sub_spec(x3, f), f).sub_spec(y1, f);
    Point::Affine(x3, y3)
}

/// The sum of two points under the chord-and-tangent law.
///
/// The identity is neutral; points with equal `x` and opposite `y` add to
/// the identity, which covers doubling a point with `y = -y`; equal points
/// are joined by the tangent, others by the chord. The sum is
/// `NotInvertible` where the slope's denominator has no inverse.
pub open spec fn add_spec<F: FieldElement>(p: Point<F>, q: Point<F>, curve: Curve<F>) -> Result<
    Point<F>,
    ArithmeticError,
> {
    let f = curve.field;
    match (p, q) {
        (Point::Identity, _) => Ok(q),
        (_, Point::Identity) => Ok(p),
        (Point::Affine(x1, y1), Point::Affine(x2, y2)) => {
            if x1 == x2 && y1 == y2.neg_spec(f) {
                Ok(Point::Identity)
            } else if x1 == x2 && y1 == y2 {
                if y1.add_spec(y1, f).invertible(f) {
                    Ok(third_point(tangent_slope(x1, y1, curve), x1, y1, x2, f))
                } else {
                    Err(ArithmeticError::NotInvertible)
                }
            } else {
                if x2.sub_spec(x1, f).invertible(f) {
                    Ok(third_point(chord_slope(x1, y1, x2, y2, f), x1, y1, x2, f))
                } else {
                    Err(ArithmeticError::NotInvertible)
                }
            }
        },
    }
}

/// The inverse of a point: the identity is its own, `(x, y)` has `(x, -y)`.
pub open spec fn negate_spec<F: FieldElement>(p: Point<F>, curve: Curve<F>) -> Point<F> {
    match p {
        Point::Identity => Point::Identity,
        Point::Affine(x, y) => Point::Affine(x, y.neg_spec(curve.field)),
    }
}

/// Whether the point satisfies the curve equation.
pub fn is_on_curve<F: FieldElement>(p: &Point<F>, curve: &Curve<F>) -> (r: bool)
    requires
        curve.wf(),
        p.wf(*curve),
    ensures
        r == on_curve(*p, *curve),
{
    match p {
        Point::Identity => true,
        Point::Affine(x, y) => {
            let lhs = y.mul(*y, &curve.field);
            lhs.equals(curve.rhs(*x))
        },
    }
}

/// The inverse of a point.
pub fn negate<F: FieldElement>(p: &Point<F>, curve: &Curve<F>) -> (r: Point<F>)
    requires
        curve.wf(),
        p.wf(*curve),
    ensures
        r == negate_spec(*p, *curve),
        r.wf(*curve),
{
    match p {
        Point::Identity => Point::Identity,
        Point::Affine(x, y) => Point::Affine(*x, y.neg(&curve.field)),
    }
}

/// The point that the line of slope `slope` through `(x1, y1)` and a point
/// with abscissa `x2` leads to.
fn third<F: FieldElement>(slope: F, x1: F, y1: F, x2: F, f: &F::Field) -> (r: Point<F>)
    requires
        F::field_wf(*f),
        slope.wf(*f),
        x1.wf(*f),
        y1.wf(*f),
        x2.wf(*f),
    ensures
        r == third_point(slope, x1, y1, x2, *f),
        r matches Point::Affine(x3, y3) && x3.wf(*f) && y3.wf(*f),
{
    let x3 = slope.mul(slope, f).sub(x1, f).sub(x2, f);
    let y3 = slope.mul(x1.sub(x3, f), f).sub(y1, f);
    Point::Affine(x3, y3)
}

/// Adds two points.
pub fn add<F: FieldElement>(p: &Point<F>, q: &Point<F>, curve: &Curve<F>) -> (r: Result<
    Point<F>,
    ArithmeticError,
>)
    requires
        curve.wf(),
        p.wf(*curve),
        q.wf(*curve),
    ensures
        r == add_spec(*p, *q, *curve),
        r matches Ok(v) ==> v.wf(*curve),
{
    let f = &curve.field;
    match (p, q) {
        (Point::Identity, _) => Ok(*q),
        (_, Point::Identity) => Ok(*p),
        (Point::Affine(x1, y1), Point::Affine(x2, y2)) => {
            let same_x = x1.equals(*x2);
            if same_x && y1.equals(y2.neg(f)) {
                Ok(Point::Identity)
            } else if same_x && y1.equals(*y2) {
                let xx = x1.mul(*x1, f);
                let numerator = xx.add(xx, f).add(xx, f).add(curve.a, f);
                match div(numerator, y1.add(*y1, f), f) {
                    Ok(slope) => Ok(third(slope, *x1, *y1, *x2, f)),
                    Err(e) => Err(e),
                }
            } else {
                match div(y2.sub(*y1, f), x2.sub(*x1, f), f) {
                    Ok(slope) => Ok(third(slope, *x1, *y1, *x2, f)),
                    Err(e) => Err(e),
                }
            }
        },
    }
}

/// Doubles a point: its sum with itself.
pub fn double<F: FieldElement>(p: &Point<F>, curve: &Curve<F>) -> (r: Result<
    Point<F>,
    ArithmeticError,
>)
    requires
        curve.wf(),
        p.wf(*curve),
    ensures
        r == add_spec(*p, *p, *curve),
        r matches Ok(v) ==> v.wf(*curve),
{
    self::add(p, p, curve)
}

} // verus!
