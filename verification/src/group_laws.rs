//! Laws of the group of points, proved of the addition that `curve` defines.

use vstd::prelude::*;
use vstd::arithmetic::div_mod::*;
use crate::errors::ArithmeticError;
use crate::curve::{add_spec, chord_slope, negate_spec, on_curve, third_point, Curve, Point};
use crate::prime_field::PrimeElement;
use crate::primes::{is_prime, lemma_prime_unit, lemma_square_roots};
use crate::field::{
    lemma_div_mul_cancel, lemma_inverse_neg, lemma_mul_neg_neg, lemma_neg_neg, lemma_neg_sub,
    lemma_sub_add_cancel, lemma_sub_add_sub, lemma_sub_swap, FieldElement,
};

verus! {

/// The identity is neutral on both sides: `P + O = P` and `O + P = P`.
pub proof fn lemma_add_identity<F: FieldElement>(p: Point<F>, curve: Curve<F>)
    ensures
        add_spec(p, Point::Identity, curve) == Ok::<Point<F>, ArithmeticError>(p),
        add_spec(Point::Identity, p, curve) == Ok::<Point<F>, ArithmeticError>(p),
{
}

/// A point and its mirror image add to the identity:
/// `(x, y) + (x, -y) = O`.
pub proof fn lemma_add_inverse<F: FieldElement>(x: F, y: F, curve: Curve<F>)
    requires
        curve.wf(),
        x.wf(curve.field),
        y.wf(curve.field),
    ensures
        add_spec(Point::Affine(x, y), Point::Affine(x, y.neg_spec(curve.field)), curve) == Ok::<
            Point<F>,
            ArithmeticError,
        >(Point::Identity),
{
    lemma_neg_neg(y, curve.field);
}

/// Every point adds with its negation to the identity, in either order.
pub proof fn lemma_add_negate<F: FieldElement>(p: Point<F>, curve: Curve<F>)
    requires
        curve.wf(),
        p.wf(curve),
    ensures
        add_spec(p, negate_spec(p, curve), curve) == Ok::<Point<F>, ArithmeticError>(Point::Identity),
        add_spec(negate_spec(p, curve), p, curve) == Ok::<Point<F>, ArithmeticError>(Point::Identity),
{
    match p {
        Point::Identity => {},
        Point::Affine(x, y) => {
            lemma_neg_neg(y, curve.field);
        },
    }
}

/// The line through two points meets the curve in the same third point
/// whichever of the two it is drawn from.
proof fn lemma_chord_symmetric<F: FieldElement>(x1: F, y1: F, x2: F, y2: F, f: F::Field)
    requires
        F::field_wf(f),
        x1.wf(f),
        y1.wf(f),
        x2.wf(f),
        y2.wf(f),
        x2.sub_spec(x1, f).invertible(f),
    ensures
        x1.sub_spec(x2, f).invertible(f),
        third_point(chord_slope(x1, y1, x2, y2, f), x1, y1, x2, f) == third_point(
            chord_slope(x2, y2, x1, y1, f),
            x2,
            y2,
            x1,
            f,
        ),
{
    let d = x2.sub_spec(x1, f);
    let n = y2.sub_spec(y1, f);
    F::lemma_closed(x2, x1, f);
    F::lemma_closed(y2, y1, f);
    F::lemma_closed(d, d, f);
    let u = d.inverse_spec(f);
    let slope = chord_slope(x1, y1, x2, y2, f);
    // the slope is the same from either end
    lemma_neg_sub(x2, x1, f);
    lemma_neg_sub(y2, y1, f);
    lemma_inverse_neg(d, f);
    lemma_mul_neg_neg(n, u, f);
    assert(chord_slope(x2, y2, x1, y1, f) == slope);
    F::lemma_closed(n, u, f);
    // so is the abscissa
    let ll = slope.mul_spec(slope, f);
    F::lemma_closed(slope, slope, f);
    lemma_sub_swap(ll, x1, x2, f);
    let x3 = ll.sub_spec(x1, f).sub_spec(x2, f);
    F::lemma_closed(ll, x1, f);
    F::lemma_closed(ll.sub_spec(x1, f), x2, f);
    // and the ordinate: slope * (x2 - x3) = slope * (x2 - x1) + slope * (x1 - x3)
    //   = (y2 - y1) + slope * (x1 - x3)
    let v1 = x1.sub_spec(x3, f);
    let v2 = x2.sub_spec(x3, f);
    F::lemma_closed(x1, x3, f);
    F::lemma_closed(x2, x3, f);
    lemma_sub_add_sub(x2, x1, x3, f);
    F::lemma_multiplicative(slope, d, v1, f);
    lemma_div_mul_cancel(n, d, f);
    F::lemma_closed(slope, v1, f);
    lemma_sub_add_cancel(y2, y1, slope.mul_spec(v1, f), f);
}

/// Addition is commutative: `P + Q = Q + P`, failures included.
pub proof fn lemma_add_commutative<F: FieldElement>(p: Point<F>, q: Point<F>, curve: Curve<F>)
    requires
        curve.wf(),
        p.wf(curve),
        q.wf(curve),
    ensures
        add_spec(p, q, curve) == add_spec(q, p, curve),
{
    let f = curve.field;
    match (p, q) {
        (Point::Affine(x1, y1), Point::Affine(x2, y2)) => {
            lemma_neg_neg(y1, f);
            lemma_neg_neg(y2, f);
            if x1 == x2 && y1 == y2.neg_spec(f) {
            } else if x1 == x2 && y1 == y2 {
            } else {
                F::lemma_closed(x2, x1, f);
                F::lemma_closed(x1, x2, f);
                lemma_neg_sub(x2, x1, f);
                lemma_inverse_neg(x2.sub_spec(x1, f), f);
                if x2.sub_spec(x1, f).invertible(f) {
                    lemma_chord_symmetric(x1, y1, x2, y2, f);
                }
            }
        },
        _ => {},
    }
}

/// Over a prime field the sum of two points of the curve is always
/// defined: no slope has a denominator without an inverse.
pub proof fn lemma_add_defined(
    p: Point<PrimeElement>,
    q: Point<PrimeElement>,
    curve: Curve<PrimeElement>,
)
    requires
        curve.wf(),
        is_prime(curve.field.modulus as int),
        p.wf(curve),
        q.wf(curve),
        on_curve(p, curve),
        on_curve(q, curve),
    ensures
        add_spec(p, q, curve) is Ok,
{
    let f = curve.field;
    let m = f.modulus as int;
    match (p, q) {
        (Point::Affine(x1, y1), Point::Affine(x2, y2)) => {
            let (a1, b1, a2, b2) = (x1.value as int, y1.value as int, x2.value as int, y2.value as int);
            lemma_small_mod(b1 as nat, m as nat);
            lemma_small_mod(b2 as nat, m as nat);
            lemma_mod_bound(-b2, m);
            if x1 == x2 && y1 == y2.neg_spec(f) {
            } else if x1 == x2 && y1 == y2 {
                // y is not its own opposite, so 2 * y is not zero
                let d = y1.add_spec(y1, f);
                lemma_mod_bound(b1 + b1, m);
                if d.value == 0 {
                    lemma_mod_equivalence(b1, -b1, m);
                }
                lemma_small_mod(d.value as nat, m as nat);
                lemma_prime_unit(d.value as int, m);
            } else {
                let d = x2.sub_spec(x1, f);
                lemma_mod_bound(a2 - a1, m);
                if d.value == 0 {
                    // equal abscissas: the ordinates have the same square
                    lemma_mod_equivalence(a2, a1, m);
                    lemma_small_mod(a1 as nat, m as nat);
                    lemma_small_mod(a2 as nat, m as nat);
                    assert(x1 == x2);
                    lemma_square_roots(b1, b2, m);
                }
                lemma_small_mod(d.value as nat, m as nat);
                lemma_prime_unit(d.value as int, m);
            }
        },
        _ => {},
    }
}

} // verus!
