//! Curves over prime fields of any size, on the big integers of
//! `num_bigint`: membership, point compression and changes of coordinates.

use vstd::prelude::*;
use vstd::arithmetic::div_mod::*;
use vstd::arithmetic::power::*;
use num_bigint::BigInt;
use crate::closure::cubic;
use crate::compression::{choose_root, parity_spec};
use crate::errors::ArithmeticError;
use crate::number_theory::lemma_mod_of_negative;
use crate::residues::{lemma_sqrt_is_root, sqrt_spec};

verus! {

/// The signed big integers of `num_bigint`, opaque to the verifier.
#[verifier::external_type_specification]
#[verifier::external_body]
pub struct ExBigInt(BigInt);

/// The integer that a big integer stands for.
pub uninterp spec fn bigint_value(n: BigInt) -> int;

/// `BigInt::from(i64)`: the big integer with the value of `n`.
#[verifier::external_body]
fn big_from(n: i64) -> (r: BigInt)
    ensures
        bigint_value(r) == n,
{
    BigInt::from(n)
}

/// `BigInt`'s `Clone::clone`: a copy with the same value.
#[verifier::external_body]
fn big_clone(a: &BigInt) -> (r: BigInt)
    ensures
        bigint_value(r) == bigint_value(*a),
{
    a.clone()
}

/// `&BigInt + &BigInt`: the exact sum.
#[verifier::external_body]
fn big_add(a: &BigInt, b: &BigInt) -> (r: BigInt)
    ensures
        bigint_value(r) == bigint_value(*a) + bigint_value(*b),
{
    a + b
}

/// `&BigInt - &BigInt`: the exact difference.
#[verifier::external_body]
fn big_sub(a: &BigInt, b: &BigInt) -> (r: BigInt)
    ensures
        bigint_value(r) == bigint_value(*a) - bigint_value(*b),
{
    a - b
}

/// `&BigInt * &BigInt`: the exact product.
#[verifier::external_body]
fn big_mul(a: &BigInt, b: &BigInt) -> (r: BigInt)
    ensures
        bigint_value(r) == bigint_value(*a) * bigint_value(*b),
{
    a * b
}

/// `&BigInt / &BigInt`, which truncates; stated for a dividend that is not
/// negative and a positive divisor, where the quotient is rounded down. The
/// division panics for a zero divisor, which the precondition excludes.
#[verifier::external_body]
fn big_div(a: &BigInt, b: &BigInt) -> (r: BigInt)
    requires
        bigint_value(*a) >= 0,
        bigint_value(*b) > 0,
    ensures
        bigint_value(r) == bigint_value(*a) / bigint_value(*b),
{
    a / b
}

/// `&BigInt % &BigInt`, whose sign follows the dividend; stated for a
/// dividend that is not negative and a positive divisor, where it is the
/// remainder in `[0, b)`. It panics for a zero divisor, which the
/// precondition excludes.
#[verifier::external_body]
fn big_rem(a: &BigInt, b: &BigInt) -> (r: BigInt)
    requires
        bigint_value(*a) >= 0,
        bigint_value(*b) > 0,
    ensures
        bigint_value(r) == bigint_value(*a) % bigint_value(*b),
{
    a % b
}

/// `BigInt`'s `<`: whether `a` is less than `b`.
#[verifier::external_body]
fn big_lt(a: &BigInt, b: &BigInt) -> (r: bool)
    ensures
        r == (bigint_value(*a) < bigint_value(*b)),
{
    a < b
}

/// `BigInt`'s `==`: whether `a` and `b` have the same value.
#[verifier::external_body]
fn big_eq(a: &BigInt, b: &BigInt) -> (r: bool)
    ensures
        r == (bigint_value(*a) == bigint_value(*b)),
{
    a == b
}

/// `BigInt::modpow`: `base^exponent` modulo `modulus`, in `[0, modulus)`. It
/// panics for a negative exponent and a zero modulus; the contract is stated
/// for moduli of at least 2.
#[verifier::external_body]
fn big_modpow(base: &BigInt, exponent: &BigInt, modulus: &BigInt) -> (r: BigInt)
    requires
        bigint_value(*exponent) >= 0,
        bigint_value(*modulus) >= 2,
    ensures
        bigint_value(r) == pow(bigint_value(*base), bigint_value(*exponent) as nat) % bigint_value(
            *modulus,
        ),
{
    base.modpow(exponent, modulus)
}

/// A curve `y^2 = x^3 + a*x + b` over the integers modulo `p`.
#[derive(Debug, PartialEq, Eq)]
pub struct BigCurve {
    /// The coefficient of `x`; any integer, taken modulo `p`.
    pub a: BigInt,
    /// The constant term; any integer, taken modulo `p`.
    pub b: BigInt,
    /// The modulus.
    pub p: BigInt,
}

/// An affine point with big-integer coordinates.
#[derive(Debug, PartialEq, Eq)]
pub struct BigPoint {
    /// The abscissa.
    pub x: BigInt,
    /// The ordinate.
    pub y: BigInt,
}

impl BigCurve {
    /// The right-hand side of the curve equation at `x`, as an integer that
    /// is not reduced.
    pub open spec fn rhs_spec(self, x: int) -> int {
        cubic(x, bigint_value(self.a), bigint_value(self.b))
    }
}

/// The residue of `x` modulo a positive `p`, in `[0, p)`.
fn normalize(x: &BigInt, p: &BigInt) -> (r: BigInt)
    requires
        bigint_value(*p) > 0,
    ensures
        bigint_value(r) == bigint_value(*x) % bigint_value(*p),
{
    let zero = big_from(0);
    if big_lt(x, &zero) {
        let negated = big_sub(&zero, x);
        let t = big_rem(&negated, p);
        proof {
            lemma_mod_of_negative(bigint_value(*x), bigint_value(*p));
        }
        if big_eq(&t, &zero) {
            zero
        } else {
            big_sub(p, &t)
        }
    } else {
        big_rem(x, p)
    }
}

/// The square root of `n` modulo `p`, for `p` congruent to 3 modulo 4: the
/// value `sqrt_spec` describes, computed with `BigInt::modpow`.
pub fn mod_sqrt(n: &BigInt, p: &BigInt) -> (r: Result<BigInt, ArithmeticError>)
    ensures
        match r {
            Ok(y) => sqrt_spec(bigint_value(*n), bigint_value(*p)) == Ok::<int, ArithmeticError>(
                bigint_value(y),
            ),
            Err(e) => sqrt_spec(bigint_value(*n), bigint_value(*p)) == Err::<int, ArithmeticError>(e),
        },
        r matches Ok(y) ==> 0 <= bigint_value(y) < bigint_value(*p) && (bigint_value(y)
            * bigint_value(y)) % bigint_value(*p) == bigint_value(*n) % bigint_value(*p),
{
    let zero = big_from(0);
    let one = big_from(1);
    if !big_lt(&zero, p) {
        return Err(ArithmeticError::UnsupportedModulus);
    }
    if !big_eq(&big_rem(p, &big_from(4)), &big_from(3)) {
        return Err(ArithmeticError::UnsupportedModulus);
    }
    let a = normalize(n, p);
    proof {
        lemma_mod_bound(bigint_value(*n), bigint_value(*p));
        lemma_mod_twice(bigint_value(*n), bigint_value(*p));
    }
    if big_eq(&a, &zero) {
        proof {
            assert(0int * 0int == 0);
            lemma_small_mod(0, bigint_value(*p) as nat);
        }
        return Ok(zero);
    }
    let half = big_div(&big_sub(p, &one), &big_from(2));
    let euler = big_modpow(&a, &half, p);
    if !big_eq(&euler, &one) {
        return Err(ArithmeticError::NoSquareRoot);
    }
    let quarter = big_div(&big_add(p, &one), &big_from(4));
    let root = big_modpow(&a, &quarter, p);
    proof {
        lemma_sqrt_is_root(bigint_value(a), bigint_value(*p));
    }
    Ok(root)
}

/// The right-hand side of the curve equation at `x`, reduced modulo `p`.
fn rhs(x: &BigInt, curve: &BigCurve) -> (r: BigInt)
    requires
        bigint_value(curve.p) > 0,
    ensures
        bigint_value(r) == curve.rhs_spec(bigint_value(*x)) % bigint_value(curve.p),
{
    let xx = big_mul(x, x);
    let xxx = big_mul(&xx, x);
    let ax = big_mul(&curve.a, x);
    let sum = big_add(&big_add(&xxx, &ax), &curve.b);
    normalize(&sum, &curve.p)
}

/// Whether `(x, y)` is a point of the curve: both coordinates lie in
/// `[0, p)` and satisfy the curve equation modulo `p`.
pub open spec fn big_on_curve(x: int, y: int, curve: BigCurve) -> bool {
    let p = bigint_value(curve.p);
    0 <= x < p && 0 <= y < p && (y * y) % p == curve.rhs_spec(x) % p
}

/// Whether the point lies on the curve, for a positive modulus.
fn on_curve_checked(point: &BigPoint, curve: &BigCurve) -> (r: bool)
    requires
        bigint_value(curve.p) > 0,
    ensures
        r == big_on_curve(bigint_value(point.x), bigint_value(point.y), *curve),
{
    let zero = big_from(0);
    let p = &curve.p;
    if big_lt(&point.x, &zero) || !big_lt(&point.x, p) || big_lt(&point.y, &zero) || !big_lt(
        &point.y,
        p,
    ) {
        return false;
    }
    let left = big_rem(&big_mul(&point.y, &point.y), p);
    proof {
        let y = bigint_value(point.y);
        assert(y * y >= 0) by (nonlinear_arith)
            requires
                y >= 0,
        ;
    }
    big_eq(&left, &rhs(&point.x, curve))
}

impl BigCurve {
    /// Whether the point lies on the curve; no point lies on a curve whose
    /// modulus is not positive.
    pub fn contains_point(&self, point: &BigPoint) -> (r: bool)
        ensures
            r == (bigint_value(self.p) > 0 && big_on_curve(
                bigint_value(point.x),
                bigint_value(point.y),
                *self,
            )),
    {
        let zero = big_from(0);
        big_lt(&zero, &self.p) && on_curve_checked(point, self)
    }
}

/// The change of coordinates
/// `(x, y) -> (u^2 * x + r, u^3 * y + u^2 * s * x + t)` on big integers.
#[derive(Debug, PartialEq, Eq)]
pub struct BigIsomorphism {
    /// The scaling factor.
    pub u: BigInt,
    /// The shift of `x`.
    pub r: BigInt,
    /// The shear of `y` along `x`.
    pub s: BigInt,
    /// The shift of `y`.
    pub t: BigInt,
}

impl BigIsomorphism {
    /// The image of the abscissa before reduction: `u^2 * x + r`.
    pub open spec fn map_x(self, x: int) -> int {
        let u = bigint_value(self.u);
        u * u * x + bigint_value(self.r)
    }

    /// The image of the ordinate before reduction:
    /// `u^3 * y + u^2 * s * x + t`.
    pub open spec fn map_y(self, x: int, y: int) -> int {
        let u = bigint_value(self.u);
        u * u * u * y + u * u * bigint_value(self.s) * x + bigint_value(self.t)
    }

    /// Applies the change of coordinates to a point and reduces the image
    /// into `[0, field_order)`; `UnsupportedModulus` where the field order is
    /// not positive.
    pub fn transform_point(&self, point: &BigPoint, field_order: &BigInt) -> (image: Result<
        BigPoint,
        ArithmeticError,
    >)
        ensures
            match image {
                Ok(q) => {
                    &&& bigint_value(*field_order) > 0
                    &&& bigint_value(q.x) == self.map_x(bigint_value(point.x)) % bigint_value(
                        *field_order,
                    )
                    &&& bigint_value(q.y) == self.map_y(
                        bigint_value(point.x),
                        bigint_value(point.y),
                    ) % bigint_value(*field_order)
                },
                Err(e) => e == ArithmeticError::UnsupportedModulus && bigint_value(*field_order)
                    <= 0,
            },
    {
        let zero = big_from(0);
        if !big_lt(&zero, field_order) {
            return Err(ArithmeticError::UnsupportedModulus);
        }
        let u2 = big_mul(&self.u, &self.u);
        let u3 = big_mul(&u2, &self.u);
        let new_x = big_add(&big_mul(&u2, &point.x), &self.r);
        let new_y = big_add(
            &big_add(&big_mul(&u3, &point.y), &big_mul(&big_mul(&u2, &self.s), &point.x)),
            &self.t,
        );
        Ok(BigPoint { x: normalize(&new_x, field_order), y: normalize(&new_y, field_order) })
    }
}

/// Compresses a point to its abscissa and the bit of its ordinate.
///
/// The error is `UnsupportedModulus` where the modulus is not positive, and
/// `NotOnCurve` where a coordinate is outside `[0, p)` or the point does not
/// satisfy the curve equation.
pub fn compress_point(point: &BigPoint, curve: &BigCurve) -> (r: Result<(BigInt, u8), ArithmeticError>)
    ensures
        ({
            let (x, y, p) = (
                bigint_value(point.x),
                bigint_value(point.y),
                bigint_value(curve.p),
            );
            if p <= 0 {
                r matches Err(e) && e == ArithmeticError::UnsupportedModulus
            } else if big_on_curve(x, y, *curve) {
                r matches Ok((cx, parity)) && bigint_value(cx) == x && parity == parity_spec(y, p)
            } else {
                r matches Err(e) && e == ArithmeticError::NotOnCurve
            }
        }),
{
    let zero = big_from(0);
    let p = &curve.p;
    if !big_lt(&zero, p) {
        return Err(ArithmeticError::UnsupportedModulus);
    }
    if !on_curve_checked(point, curve) {
        return Err(ArithmeticError::NotOnCurve);
    }
    let mirror = big_sub(p, &point.y);
    let parity: u8 = if big_lt(&mirror, &point.y) {
        1
    } else {
        0
    };
    Ok((big_clone(&point.x), parity))
}

/// Recovers the point with abscissa `x` whose ordinate has the bit `parity`.
///
/// The ordinate is the square root of `x^3 + a*x + b` that `choose_root`
/// picks. The error is that of the square root: `UnsupportedModulus` for a
/// modulus that is not positive or not congruent to 3 modulo 4, and
/// `NoSquareRoot` where no point of the curve has this abscissa.
pub fn decompress_point(x: &BigInt, parity: u8, curve: &BigCurve) -> (r: Result<
    BigPoint,
    ArithmeticError,
>)
    ensures
        ({
            let p = bigint_value(curve.p);
            match sqrt_spec(curve.rhs_spec(bigint_value(*x)), p) {
                Ok(root) => r matches Ok(point) && bigint_value(point.x) == bigint_value(*x)
                    && bigint_value(point.y) == choose_root(root, parity, p),
                Err(e) => r matches Err(f) && e == f,
            }
        }),
{
    let zero = big_from(0);
    let p = &curve.p;
    if !big_lt(&zero, p) {
        return Err(ArithmeticError::UnsupportedModulus);
    }
    let value = rhs(x, curve);
    proof {
        lemma_mod_twice(curve.rhs_spec(bigint_value(*x)), bigint_value(*p));
    }
    match mod_sqrt(&value, p) {
        Err(e) => Err(e),
        Ok(root) => {
            let mirror = big_sub(p, &root);
            let root_is_small = !big_lt(&mirror, &root);
            let y = if root_is_small == (parity == 0) {
                root
            } else {
                proof {
                    lemma_mod_of_negative(-bigint_value(root), bigint_value(*p));
                    lemma_small_mod(bigint_value(root) as nat, bigint_value(*p) as nat);
                }
                if big_eq(&root, &zero) {
                    root
                } else {
                    mirror
                }
            };
            Ok(BigPoint { x: big_clone(x), y })
        },
    }
}

} // verus!
