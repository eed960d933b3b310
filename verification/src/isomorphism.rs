//! Changes of coordinates between Weierstrass curves.

use vstd::prelude::*;
use crate::curve::{is_on_curve, on_curve, Curve, Point};
use crate::errors::ArithmeticError;
use crate::field::FieldElement;

verus! {

/// The change of coordinates
/// `(x, y) -> (u^2 * x + r, u^3 * y + u^2 * s * x + t)`.
pub struct Isomorphism<F: FieldElement> {
    /// The scaling factor.
    pub u: F,
    /// The shift of `x`.
    pub r: F,
    /// The shear of `y` along `x`.
    pub s: F,
    /// The shift of `y`.
    pub t: F,
}

impl<F: FieldElement> Isomorphism<F> {
    /// The four parameters are reduced values of the field `f`.
    pub open spec fn wf(self, f: F::Field) -> bool {
        self.u.wf(f) && self.r.wf(f) && self.s.wf(f) && self.t.wf(f)
    }

    /// The image of the abscissa: `u^2 * x + r`.
    pub open spec fn map_x(self, x: F, f: F::Field) -> F {
        self.u.mul_spec(self.u, f).mul_spec(x, f).add_spec(self.r, f)
    }

    /// The image of the ordinate: `u^3 * y + u^2 * s * x + t`.
    pub open spec fn map_y(self, x: F, y: F, f: F::Field) -> F {
        let u2 = self.u.mul_spec(self.u, f);
        let u3 = u2.mul_spec(self.u, f);
        u3.mul_spec(y, f).add_spec(u2.mul_spec(self.s, f).mul_spec(x, f), f).add_spec(self.t, f)
    }

    /// The image of a point; the identity goes to the identity.
    pub open spec fn transform_spec(self, point: Point<F>, f: F::Field) -> Point<F> {
        match point {
            Point::Identity => Point::Identity,
            Point::Affine(x, y) => Point::Affine(self.map_x(x, f), self.map_y(x, y, f)),
        }
    }

    /// The change of coordinates with the parameters `u`, `r`, `s`, `t`.
    pub fn new(u: F, r: F, s: F, t: F) -> (iso: Self)
        ensures
            iso.u == u,
            iso.r == r,
            iso.s == s,
            iso.t == t,
    {
        Isomorphism { u, r, s, t }
    }

    /// Applies the change of coordinates to a point.
    pub fn transform_point(&self, point: &Point<F>, f: &F::Field) -> (image: Point<F>)
        requires
            F::field_wf(*f),
            self.wf(*f),
            match *point {
                Point::Identity => true,
                Point::Affine(x, y) => x.wf(*f) && y.wf(*f),
            },
        ensures
            image == self.transform_spec(*point, *f),
            match image {
                Point::Identity => true,
                Point::Affine(x, y) => x.wf(*f) && y.wf(*f),
            },
    {
        match point {
            Point::Identity => Point::Identity,
            Point::Affine(x, y) => {
                let u2 = self.u.mul(self.u, f);
                let u3 = u2.mul(self.u, f);
                let new_x = u2.mul(*x, f).add(self.r, f);
                let new_y = u3.mul(*y, f).add(u2.mul(self.s, f).mul(*x, f), f).add(self.t, f);
                Point::Affine(new_x, new_y)
            },
        }
    }

    /// Applies the change of coordinates and checks that the image lies on
    /// the curve `target`; `NotOnCurve` where it does not.
    pub fn transform_onto(&self, point: &Point<F>, target: &Curve<F>) -> (image: Result<
        Point<F>,
        ArithmeticError,
    >)
        requires
            target.wf(),
            self.wf(target.field),
            point.wf(*target),
        ensures
            match image {
                Ok(q) => q == self.transform_spec(*point, target.field) && on_curve(q, *target)
                    && q.wf(*target),
                Err(e) => e == ArithmeticError::NotOnCurve && !on_curve(
                    self.transform_spec(*point, target.field),
                    *target,
                ),
            },
    {
        let image = self.transform_point(point, &target.field);
        if is_on_curve(&image, target) {
            Ok(image)
        } else {
            Err(ArithmeticError::NotOnCurve)
        }
    }
}

} // verus!
