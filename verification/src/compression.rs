//! Point compression: a point as its abscissa and one bit that tells its
//! ordinate from the opposite one.

use vstd::prelude::*;
use vstd::arithmetic::div_mod::*;
use crate::curve::{is_on_curve, on_curve, Curve, Point};
use crate::errors::ArithmeticError;
use crate::field::FieldElement;
use crate::modular::mod_sub;
use crate::number_theory::lemma_mul_congruent;
use crate::prime_field::PrimeElement;
use crate::primes::{is_prime, lemma_square_roots};
use crate::residues::{is_square, lemma_sqrt_of_square, mod_sqrt, sqrt_spec};

verus! {

/// The bit that tells `y` from `p - y`: 0 for the one that is not above the
/// other, 1 for the larger. Zero, which is its own opposite, has 0.
pub open spec fn parity_spec(y: int, p: int) -> u8 {
    if y <= p - y {
        0
    } else {
        1
    }
}

/// The root that matches the requested bit: `root` itself, or its opposite
/// modulo `p`. Any bit other than 0 asks for the larger one.
pub open spec fn choose_root(root: int, parity: u8, p: int) -> int {
    if (parity_spec(root, p) == 0) == (parity == 0) {
        root
    } else {
        (-root) % p
    }
}

/// The point that a compressed form stands for.
///
/// The ordinate is the square root of `x^3 + a*x + b` with the requested
/// bit. There is none where that value is no square (`NoSquareRoot`), and the
/// root can only be found for a modulus congruent to 3 modulo 4
/// (`UnsupportedModulus` otherwise). Where the root is zero the point
/// `(x, 0)` is the result whatever the bit.
pub open spec fn decompress_spec(x: PrimeElement, parity: u8, curve: Curve<PrimeElement>) -> Result<
    Point<PrimeElement>,
    ArithmeticError,
> {
    let p = curve.field.modulus as int;
    match sqrt_spec(curve.rhs_spec(x).value as int, p) {
        Err(e) => Err(e),
        Ok(root) => Ok(Point::Affine(x, PrimeElement { value: choose_root(root, parity, p) as i64 })),
    }
}

/// The bit that tells `y` from its opposite modulo `p`.
fn parity_of(y: i64, p: i64) -> (r: u8)
    requires
        0 <= y < p,
    ensures
        r == parity_spec(y as int, p as int),
{
    if y <= p - y {
        0
    } else {
        1
    }
}

/// Compresses a point of the curve to its abscissa and the bit of its
/// ordinate. The identity has no compressed form and is not accepted. A
/// point that does not satisfy the curve equation is reported as
/// `NotOnCurve`.
pub fn compress(point: &Point<PrimeElement>, curve: &Curve<PrimeElement>) -> (r: Result<
    (PrimeElement, u8),
    ArithmeticError,
>)
    requires
        curve.wf(),
        point.wf(*curve),
        *point is Affine,
    ensures
        match r {
            Ok((x, parity)) => {
                &&& on_curve(*point, *curve)
                &&& x == point->0
                &&& parity == parity_spec((point->1).value as int, curve.field.modulus as int)
            },
            Err(e) => e == ArithmeticError::NotOnCurve && !on_curve(*point, *curve),
        },
{
    if !is_on_curve(point, curve) {
        return Err(ArithmeticError::NotOnCurve);
    }
    match point {
        Point::Affine(x, y) => Ok((*x, parity_of(y.value, curve.field.modulus))),
        Point::Identity => Err(ArithmeticError::NotOnCurve),
    }
}

/// Recovers the point with abscissa `x` whose ordinate has the bit `parity`.
pub fn decompress(x: PrimeElement, parity: u8, curve: &Curve<PrimeElement>) -> (r: Result<
    Point<PrimeElement>,
    ArithmeticError,
>)
    requires
        curve.wf(),
        x.wf(curve.field),
    ensures
        r == decompress_spec(x, parity, *curve),
        r matches Ok(point) ==> point.wf(*curve) && on_curve(point, *curve),
{
    let p = curve.field.modulus;
    let rhs = curve.rhs(x);
    match mod_sqrt(rhs.value, p) {
        Err(e) => Err(e),
        Ok(root) => {
            let y = if (parity_of(root, p) == 0) == (parity == 0) {
                root
            } else {
                mod_sub(0, root, p)
            };
            proof {
                // both roots square to the right-hand side
                let (ri, pi) = (root as int, p as int);
                assert((-ri) * (-ri) == ri * ri) by (nonlinear_arith);
                lemma_mod_twice(-ri, pi);
                lemma_mul_congruent((-ri) % pi, -ri, (-ri) % pi, -ri, pi);
                lemma_small_mod(rhs.value as nat, pi as nat);
            }
            Ok(Point::Affine(x, PrimeElement { value: y }))
        },
    }
}

/// What compression keeps is enough: for a prime `p` congruent to 3 modulo
/// 4 and `y` in `[0, p)` with `y^2` congruent to `n`, the square root of `n`
/// exists, and choosing by the bit of `y` gives `y` back.
pub proof fn lemma_root_recovered(n: int, y: int, p: int)
    requires
        is_prime(p),
        p % 4 == 3,
        0 <= y < p,
        (y * y) % p == n % p,
    ensures
        sqrt_spec(n, p) matches Ok(root) && choose_root(root, parity_spec(y, p), p) == y,
{
    assert(is_square(n, p));
    lemma_sqrt_of_square(n, p);
    let root = sqrt_spec(n, p)->Ok_0;
    lemma_square_roots(root, y, p);
    lemma_small_mod(root as nat, p as nat);
    lemma_small_mod(y as nat, p as nat);
    if y == 0 {
        lemma_small_mod(0, p as nat);
    } else {
        // the opposite of y is p - y, and of p - y it is y
        lemma_mod_add_multiples_vanish(-y, p);
        lemma_small_mod((p - y) as nat, p as nat);
        lemma_mod_add_multiples_vanish(y - p, p);
    }
}

/// Compression loses nothing: on a curve over a prime field with modulus
/// congruent to 3 modulo 4, decompressing the compressed form of an affine
/// point of the curve gives the point back.
pub proof fn lemma_compression_round_trip(x: PrimeElement, y: PrimeElement, curve: Curve<PrimeElement>)
    requires
        curve.wf(),
        is_prime(curve.field.modulus as int),
        curve.field.modulus % 4 == 3,
        x.wf(curve.field),
        y.wf(curve.field),
        on_curve(Point::Affine(x, y), curve),
    ensures
        decompress_spec(x, parity_spec(y.value as int, curve.field.modulus as int), curve) == Ok::<
            Point<PrimeElement>,
            ArithmeticError,
        >(Point::Affine(x, y)),
{
    let p = curve.field.modulus as int;
    let rhs = curve.rhs_spec(x).value as int;
    lemma_mod_bound(y.value * y.value, p);
    lemma_small_mod(rhs as nat, p as nat);
    lemma_root_recovered(rhs, y.value as int, p);
}

} // verus!
