//! The sum of two points of a curve is a point of the curve.

use vstd::prelude::*;
use vstd::arithmetic::div_mod::*;
use vstd::arithmetic::mul::*;
use crate::curve::{add_spec, on_curve, Curve, Point};
use crate::field::{lemma_div_mul_cancel, FieldElement};
use crate::number_theory::{
    invertible, lemma_add_congruent, lemma_invertible_congruent, lemma_mul_congruent,
    lemma_sub_congruent,
};
use crate::prime_field::PrimeElement;
use crate::primes::lemma_cancel;

verus! {

/// The cubic `x^3 + a*x + b`.
pub open spec fn cubic(x: int, a: int, b: int) -> int {
    x * x * x + a * x + b
}

/// The cubic minus the square of the line of slope `l` through `(x1, y1)`,
/// with the product of its three roots `x1`, `x2` and `l^2 - x1 - x2` taken
/// out, is of the first degree, `c1 * x + c0`.
proof fn lemma_cubic_minus_line(x: int, x1: int, y1: int, x2: int, l: int, a: int, b: int)
    ensures
        ({
            let x3 = l * l - x1 - x2;
            let line = l * (x - x1) + y1;
            let c1 = a + 2 * (l * l * x1) - 2 * (l * y1) - (x1 * x2 + x1 * x3 + x2 * x3);
            let c0 = b - l * l * x1 * x1 + 2 * (l * x1 * y1) - y1 * y1 + x1 * x2 * x3;
            cubic(x, a, b) - line * line == (x - x1) * (x - x2) * (x - x3) + c1 * x + c0
        }),
{
    let s = l * l;
    let x3 = s - x1 - x2;
    let line = l * (x - x1) + y1;
    let c1 = a + 2 * (s * x1) - 2 * (l * y1) - (x1 * x2 + x1 * x3 + x2 * x3);
    let c0 = b - s * x1 * x1 + 2 * (l * x1 * y1) - y1 * y1 + x1 * x2 * x3;
    // the square of the line
    let w = x - x1;
    assert(line * line == s * (w * w) + 2 * ((l * y1) * w) + y1 * y1) by (nonlinear_arith)
        requires
            line == l * w + y1,
            s == l * l,
    ;
    assert(s * (w * w) == s * (x * x) - 2 * (s * x1 * x) + s * x1 * x1) by (nonlinear_arith)
        requires
            w == x - x1,
    ;
    assert((l * y1) * w == (l * y1) * x - l * x1 * y1) by (nonlinear_arith)
        requires
            w == x - x1,
    ;
    // the product of the three linear factors
    let e1 = x1 + x2 + x3;
    let e2 = x1 * x2 + x1 * x3 + x2 * x3;
    let e3 = x1 * x2 * x3;
    let (u, v, xx) = (x1 + x2, x1 * x2, x * x);
    assert((x - x1) * (x - x2) == xx - u * x + v) by (nonlinear_arith)
        requires
            u == x1 + x2,
            v == x1 * x2,
            xx == x * x,
    ;
    let q = (x - x1) * (x - x2);
    assert(q * (x - x3) == xx * x - u * xx + v * x - x3 * xx + (u * x3) * x - v * x3)
        by (nonlinear_arith)
        requires
            q == xx - u * x + v,
            xx == x * x,
    ;
    assert(e1 * xx == u * xx + x3 * xx) by (nonlinear_arith)
        requires
            e1 == u + x3,
    ;
    assert(e2 == v + u * x3) by (nonlinear_arith)
        requires
            e2 == x1 * x2 + x1 * x3 + x2 * x3,
            u == x1 + x2,
            v == x1 * x2,
    ;
    assert(e2 * x == v * x + (u * x3) * x) by (nonlinear_arith)
        requires
            e2 == v + u * x3,
    ;
    assert(q * (x - x3) == x * x * x - e1 * (x * x) + e2 * x - e3);
    assert(e1 == s);
    assert(c1 * x == a * x + 2 * (s * x1 * x) - 2 * ((l * y1) * x) - e2 * x) by (nonlinear_arith)
        requires
            c1 == a + 2 * (s * x1) - 2 * (l * y1) - e2,
    ;
}

/// The third point of a line stays on the curve once the part of the first
/// degree that `lemma_cubic_minus_line` leaves is known to vanish at `x1`
/// and to have a vanishing slope.
proof fn lemma_third_point_closed(x1: int, y1: int, x2: int, l: int, a: int, b: int, m: int)
    requires
        m > 0,
        (y1 * y1) % m == cubic(x1, a, b) % m,
        ({
            let x3 = l * l - x1 - x2;
            let c1 = a + 2 * (l * l * x1) - 2 * (l * y1) - (x1 * x2 + x1 * x3 + x2 * x3);
            c1 % m == 0
        }),
    ensures
        ({
            let x3 = l * l - x1 - x2;
            let y3 = l * (x1 - x3) - y1;
            (y3 * y3) % m == cubic(x3, a, b) % m
        }),
{
    let x3 = l * l - x1 - x2;
    let y3 = l * (x1 - x3) - y1;
    let c1 = a + 2 * (l * l * x1) - 2 * (l * y1) - (x1 * x2 + x1 * x3 + x2 * x3);
    let c0 = b - l * l * x1 * x1 + 2 * (l * x1 * y1) - y1 * y1 + x1 * x2 * x3;
    lemma_small_mod(0, m as nat);
    // at x1 the line passes through y1, so c1 * x1 + c0 is congruent to 0
    lemma_cubic_minus_line(x1, x1, y1, x2, l, a, b);
    assert(l * (x1 - x1) + y1 == y1) by (nonlinear_arith);
    assert((x1 - x1) * (x1 - x2) * (x1 - x3) == 0) by (nonlinear_arith);
    lemma_mod_equivalence(cubic(x1, a, b), y1 * y1, m);
    assert((c1 * x1 + c0) % m == 0);
    // hence c0 is congruent to 0 as well
    lemma_mul_congruent(c1, 0, x1, x1, m);
    assert(0 * x1 == 0);
    lemma_sub_congruent(c1 * x1 + c0, 0, c1 * x1, 0, m);
    assert(c0 % m == 0);
    // at x3 the line passes through -y3
    lemma_cubic_minus_line(x3, x1, y1, x2, l, a, b);
    let line = l * (x3 - x1) + y1;
    assert(line == -y3) by (nonlinear_arith)
        requires
            line == l * (x3 - x1) + y1,
            y3 == l * (x1 - x3) - y1,
    ;
    assert(line * line == y3 * y3) by (nonlinear_arith)
        requires
            line == -y3,
    ;
    assert((x3 - x1) * (x3 - x2) * (x3 - x3) == 0) by (nonlinear_arith);
    lemma_mul_congruent(c1, 0, x3, x3, m);
    assert(0 * x3 == 0);
    lemma_add_congruent(c1 * x3, 0, c0, 0, m);
    lemma_mod_equivalence(cubic(x3, a, b), y3 * y3, m);
}

/// The chord through two points of the curve meets it in a third.
proof fn lemma_chord_closed(x1: int, y1: int, x2: int, y2: int, l: int, a: int, b: int, m: int)
    requires
        m > 0,
        (y1 * y1) % m == cubic(x1, a, b) % m,
        (y2 * y2) % m == cubic(x2, a, b) % m,
        (l * (x2 - x1)) % m == (y2 - y1) % m,
        invertible(x2 - x1, m),
    ensures
        ({
            let x3 = l * l - x1 - x2;
            let y3 = l * (x1 - x3) - y1;
            (y3 * y3) % m == cubic(x3, a, b) % m
        }),
{
    let d = x2 - x1;
    let x3 = l * l - x1 - x2;
    let c1 = a + 2 * (l * l * x1) - 2 * (l * y1) - (x1 * x2 + x1 * x3 + x2 * x3);
    let c0 = b - l * l * x1 * x1 + 2 * (l * x1 * y1) - y1 * y1 + x1 * x2 * x3;
    lemma_small_mod(0, m as nat);
    // c1 * x1 + c0 is congruent to 0
    lemma_cubic_minus_line(x1, x1, y1, x2, l, a, b);
    assert(l * (x1 - x1) + y1 == y1) by (nonlinear_arith);
    assert((x1 - x1) * (x1 - x2) * (x1 - x3) == 0) by (nonlinear_arith);
    lemma_mod_equivalence(cubic(x1, a, b), y1 * y1, m);
    assert((c1 * x1 + c0) % m == 0);
    // at x2 the line passes through y2, so c1 * x2 + c0 is congruent to 0
    lemma_cubic_minus_line(x2, x1, y1, x2, l, a, b);
    let line = l * (x2 - x1) + y1;
    lemma_add_congruent(l * d, y2 - y1, y1, y1, m);
    lemma_mul_congruent(line, y2, line, y2, m);
    lemma_sub_congruent(cubic(x2, a, b), cubic(x2, a, b), line * line, y2 * y2, m);
    lemma_mod_equivalence(cubic(x2, a, b), y2 * y2, m);
    assert((x2 - x1) * (x2 - x2) * (x2 - x3) == 0) by (nonlinear_arith);
    assert((c1 * x2 + c0) % m == 0);
    // so (x2 - x1) * c1 is congruent to 0, and x2 - x1 can be cancelled
    lemma_sub_congruent(c1 * x2 + c0, 0, c1 * x1 + c0, 0, m);
    assert((c1 * x2 + c0) - (c1 * x1 + c0) == d * c1) by (nonlinear_arith)
        requires
            d == x2 - x1,
    ;
    assert(d * 0 == 0);
    lemma_cancel(d, c1, 0, m);
    lemma_third_point_closed(x1, y1, x2, l, a, b, m);
}

/// The tangent at a point of the curve meets it in another.
proof fn lemma_tangent_closed(x1: int, y1: int, l: int, a: int, b: int, m: int)
    requires
        m > 0,
        (y1 * y1) % m == cubic(x1, a, b) % m,
        (l * (y1 + y1)) % m == (3 * (x1 * x1) + a) % m,
    ensures
        ({
            let x3 = l * l - x1 - x1;
            let y3 = l * (x1 - x3) - y1;
            (y3 * y3) % m == cubic(x3, a, b) % m
        }),
{
    let x3 = l * l - x1 - x1;
    let c1 = a + 2 * (l * l * x1) - 2 * (l * y1) - (x1 * x1 + x1 * x3 + x1 * x3);
    let s = l * l;
    assert(x1 * x3 == s * x1 - 2 * (x1 * x1)) by (nonlinear_arith)
        requires
            x3 == s - x1 - x1,
    ;
    assert(l * (y1 + y1) == 2 * (l * y1)) by (nonlinear_arith);
    assert(c1 == (3 * (x1 * x1) + a) - l * (y1 + y1));
    lemma_mod_equivalence(3 * (x1 * x1) + a, l * (y1 + y1), m);
    lemma_third_point_closed(x1, y1, x1, l, a, b, m);
}

/// Congruent arguments give congruent values of the cubic.
proof fn lemma_cubic_congruent(x: int, z: int, a: int, b: int, m: int)
    requires
        m > 0,
        x % m == z % m,
    ensures
        cubic(x, a, b) % m == cubic(z, a, b) % m,
{
    lemma_mul_congruent(x, z, x, z, m);
    lemma_mul_congruent(x * x, z * z, x, z, m);
    lemma_mul_congruent(a, a, x, z, m);
    lemma_add_congruent(x * x * x, z * z * z, a * x, a * z, m);
    lemma_add_congruent(x * x * x + a * x, z * z * z + a * z, b, b, m);
}

/// The curve equation in integers: `(x, y)` is on the curve exactly when
/// `y^2` is congruent to `x^3 + a*x + b`.
pub proof fn lemma_on_curve_cubic(x: PrimeElement, y: PrimeElement, curve: Curve<PrimeElement>)
    requires
        curve.wf(),
        x.wf(curve.field),
        y.wf(curve.field),
    ensures
        on_curve(Point::Affine(x, y), curve) <==> (y.value * y.value) % (curve.field.modulus as int)
            == cubic(x.value as int, curve.a.value as int, curve.b.value as int) % (
        curve.field.modulus as int),
{
    let m = curve.field.modulus as int;
    let (xi, yi, a, b) = (x.value as int, y.value as int, curve.a.value as int, curve.b.value as int);
    let xx = (xi * xi) % m;
    let xxx = (xx * xi) % m;
    let ax = (a * xi) % m;
    let sum = (xxx + ax) % m;
    lemma_mod_bound(yi * yi, m);
    lemma_mod_bound(xi * xi, m);
    lemma_mod_bound(xx * xi, m);
    lemma_mod_bound(a * xi, m);
    lemma_mod_bound(xxx + ax, m);
    lemma_mod_bound(sum + b, m);
    lemma_mod_twice(xi * xi, m);
    lemma_mul_congruent(xx, xi * xi, xi, xi, m);
    lemma_mod_twice(xx * xi, m);
    lemma_mod_twice(a * xi, m);
    lemma_add_congruent(xxx, xi * xi * xi, ax, a * xi, m);
    lemma_mod_twice(xxx + ax, m);
    lemma_add_congruent(sum, xi * xi * xi + a * xi, b, b, m);
    assert(curve.rhs_spec(x).value == (sum + b) % m);
    assert(y.mul_spec(y, curve.field).value == (yi * yi) % m);
}

/// Closure: where the sum of two points of a curve over the integers modulo
/// `m` is defined, it is a point of the curve.
pub proof fn lemma_add_closed(p: Point<PrimeElement>, q: Point<PrimeElement>, curve: Curve<PrimeElement>)
    requires
        curve.wf(),
        p.wf(curve),
        q.wf(curve),
        on_curve(p, curve),
        on_curve(q, curve),
    ensures
        add_spec(p, q, curve) matches Ok(sum) ==> sum.wf(curve) && on_curve(sum, curve),
{
    let f = curve.field;
    let m = f.modulus as int;
    let (a, b) = (curve.a.value as int, curve.b.value as int);
    match (p, q) {
        (Point::Affine(x1, y1), Point::Affine(x2, y2)) => {
            if let Ok(Point::Affine(x3, y3)) = add_spec(p, q, curve) {
                let (a1, b1, a2, b2) = (
                    x1.value as int,
                    y1.value as int,
                    x2.value as int,
                    y2.value as int,
                );
                lemma_on_curve_cubic(x1, y1, curve);
                lemma_on_curve_cubic(x2, y2, curve);
                // the slope, its numerator and its denominator
                let tangent = x1 == x2 && y1 == y2;
                let xx = x1.mul_spec(x1, f);
                let num = if tangent {
                    xx.add_spec(xx, f).add_spec(xx, f).add_spec(curve.a, f)
                } else {
                    y2.sub_spec(y1, f)
                };
                let den = if tangent {
                    y1.add_spec(y1, f)
                } else {
                    x2.sub_spec(x1, f)
                };
                PrimeElement::lemma_closed(x1, x1, f);
                PrimeElement::lemma_closed(xx, xx, f);
                PrimeElement::lemma_closed(xx.add_spec(xx, f), xx, f);
                PrimeElement::lemma_closed(xx.add_spec(xx, f).add_spec(xx, f), curve.a, f);
                PrimeElement::lemma_closed(y2, y1, f);
                PrimeElement::lemma_closed(x2, x1, f);
                PrimeElement::lemma_closed(y1, y1, f);
                assert(den.invertible(f));
                let slope = num.mul_spec(den.inverse_spec(f), f);
                PrimeElement::lemma_closed(den, den, f);
                PrimeElement::lemma_closed(num, den.inverse_spec(f), f);
                lemma_div_mul_cancel(num, den, f);
                let l = slope.value as int;
                assert((l * den.value) % m == num.value);
                // the coordinates are congruent to the unreduced formulas
                let big_x3 = l * l - a1 - a2;
                let big_y3 = l * (a1 - big_x3) - b1;
                lemma_mod_bound(l * l, m);
                lemma_mod_bound((l * l) % m - a1, m);
                lemma_mod_twice(l * l, m);
                lemma_sub_congruent((l * l) % m, l * l, a1, a1, m);
                lemma_mod_twice(l * l - a1, m);
                lemma_sub_congruent(((l * l) % m - a1) % m, l * l - a1, a2, a2, m);
                lemma_mod_bound(((l * l) % m - a1) % m - a2, m);
                let x3v = x3.value as int;
                assert(x3v == (((l * l) % m - a1) % m - a2) % m);
                lemma_mod_twice(l * l - a1 - a2, m);
                assert(x3v % m == big_x3 % m);
                lemma_sub_congruent(a1, a1, x3v, big_x3, m);
                lemma_mod_bound(a1 - x3v, m);
                lemma_mod_twice(a1 - x3v, m);
                lemma_mul_congruent(l, l, (a1 - x3v) % m, a1 - big_x3, m);
                lemma_mod_bound(l * ((a1 - x3v) % m), m);
                lemma_mod_twice(l * ((a1 - x3v) % m), m);
                lemma_sub_congruent((l * ((a1 - x3v) % m)) % m, l * (a1 - big_x3), b1, b1, m);
                lemma_mod_bound((l * ((a1 - x3v) % m)) % m - b1, m);
                let y3v = y3.value as int;
                assert(y3v == ((l * ((a1 - x3v) % m)) % m - b1) % m);
                lemma_mod_twice(l * (a1 - big_x3) - b1, m);
                assert(y3v % m == big_y3 % m);
                // the unreduced third point is on the curve
                if tangent {
                    let w = (a1 * a1) % m;
                    lemma_mod_bound(a1 * a1, m);
                    lemma_mod_bound(w + w, m);
                    lemma_mod_bound((w + w) % m + w, m);
                    lemma_mod_bound(((w + w) % m + w) % m + a, m);
                    lemma_mod_bound(b1 + b1, m);
                    lemma_mod_twice(a1 * a1, m);
                    lemma_add_congruent(w, a1 * a1, w, a1 * a1, m);
                    lemma_mod_twice(w + w, m);
                    lemma_add_congruent((w + w) % m, a1 * a1 + a1 * a1, w, a1 * a1, m);
                    lemma_mod_twice((w + w) % m + w, m);
                    lemma_add_congruent(
                        ((w + w) % m + w) % m,
                        a1 * a1 + a1 * a1 + a1 * a1,
                        a,
                        a,
                        m,
                    );
                    assert(num.value == (((w + w) % m + w) % m + a) % m);
                    lemma_mod_twice(3 * (a1 * a1) + a, m);
                    lemma_mod_twice(b1 + b1, m);
                    lemma_mul_congruent(l, l, den.value as int, b1 + b1, m);
                    lemma_tangent_closed(a1, b1, l, a, b, m);
                } else {
                    lemma_mod_bound(a2 - a1, m);
                    lemma_mod_bound(b2 - b1, m);
                    lemma_mod_twice(a2 - a1, m);
                    lemma_mod_twice(b2 - b1, m);
                    lemma_mul_congruent(l, l, den.value as int, a2 - a1, m);
                    lemma_invertible_congruent(den.value as int, a2 - a1, m);
                    lemma_chord_closed(a1, b1, a2, b2, l, a, b, m);
                }
                // and so is the reduced one
                lemma_cubic_congruent(x3v, big_x3, a, b, m);
                lemma_mul_congruent(y3v, big_y3, y3v, big_y3, m);
                lemma_on_curve_cubic(x3, y3, curve);
            }
        },
        _ => {},
    }
}

} // verus!
