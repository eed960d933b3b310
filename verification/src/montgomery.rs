//! From the short Weierstrass form `y^2 = x^3 + a*x + b` to the Montgomery
//! form `B*y^2 = x^3 + A*x^2 + x`.

use vstd::prelude::*;
use vstd::arithmetic::div_mod::*;
use crate::enumeration::is_point_on_curve;
use crate::errors::ArithmeticError;
use crate::modular::{mod_add, mod_inverse, mod_mul};
use crate::number_theory::{inverse_of, invertible, lemma_add_congruent, lemma_mul_congruent};
use crate::residues::{is_square, modular_sqrt};

verus! {

/// `z` is a root of `x^3 + a*x + b` modulo `p`.
pub open spec fn is_cubic_root(z: int, a: int, b: int, p: int) -> bool {
    (z * z * z + a * z + b) % p == 0
}

/// `z` is the least root of `x^3 + a*x + b` in `[0, p)`.
pub open spec fn is_least_cubic_root(z: int, a: int, b: int, p: int) -> bool {
    &&& 0 <= z < p
    &&& is_cubic_root(z, a, b, p)
    &&& forall|x: int| 0 <= x < z ==> !#[trigger] is_cubic_root(x, a, b, p)
}

/// `w` is the least square root of `n` in `[0, p)`.
pub open spec fn is_least_sqrt(w: int, n: int, p: int) -> bool {
    &&& 0 <= w < p
    &&& (w * w) % p == n % p
    &&& forall|y: int| 0 <= y < w ==> #[trigger] ((y * y) % p) != n % p
}

/// The parameters `(A, B)` of the Montgomery form that the least root `z`
/// of the cubic and the least square root `w` of `3*z^2 + a` lead to:
/// `B = 1/w` and `A = 3*z*B`, both modulo `p`.
pub open spec fn montgomery_parameters(z: int, w: int, p: int) -> (int, int) {
    let s = inverse_of(w, p);
    ((3 * z * s) % p, s)
}

/// The least root of the cubic in `[0, p)`, by trying each value in turn.
fn least_cubic_root(a: i64, b: i64, p: i64) -> (r: Option<i64>)
    requires
        p > 0,
    ensures
        match r {
            Some(z) => is_least_cubic_root(z as int, a as int, b as int, p as int),
            None => forall|x: int| 0 <= x < p ==> !#[trigger] is_cubic_root(x, a as int, b as int, p as int),
        },
{
    let mut x: i64 = 0;
    proof {
        lemma_small_mod(0, p as nat);
    }
    while x < p
        invariant
            p > 0,
            0 <= x <= p,
            0int % (p as int) == 0,
            forall|y: int| 0 <= y < x ==> !#[trigger] is_cubic_root(y, a as int, b as int, p as int),
        decreases p - x,
    {
        assert(0int * 0int == 0);
        if is_point_on_curve(x, 0, a, b, p) {
            return Some(x);
        }
        x = x + 1;
    }
    None
}

/// The Montgomery form of the curve `y^2 = x^3 + a*x + b` modulo `p`.
///
/// With `z` the least root of `x^3 + a*x + b` in `[0, p)` and `w` the least
/// square root of `3*z^2 + a`, the result is `(A, B)` with `B = 1/w` and
/// `A = 3*z*B`. The error is `NotOnCurve` where the cubic has no root, so
/// that no point `(z, 0)` lies on the curve, `NoSquareRoot` where
/// `3*z^2 + a` is no square, and `NotInvertible` where its root has no
/// inverse.
pub fn short_weierstrass_to_montgomery(a: i64, b: i64, p: i64) -> (r: Result<
    (i64, i64),
    ArithmeticError,
>)
    requires
        p > 0,
    ensures
        match r {
            Ok((big_a, big_b)) => exists|z: int, w: int|
                {
                    &&& #[trigger] is_least_cubic_root(z, a as int, b as int, p as int)
                    &&& #[trigger] is_least_sqrt(w, 3 * z * z + a, p as int)
                    &&& invertible(w, p as int)
                    &&& (big_a as int, big_b as int) == montgomery_parameters(z, w, p as int)
                },
            Err(ArithmeticError::NotOnCurve) => forall|x: int|
                0 <= x < p ==> !#[trigger] is_cubic_root(x, a as int, b as int, p as int),
            Err(ArithmeticError::NoSquareRoot) => exists|z: int|
                {
                    &&& #[trigger] is_least_cubic_root(z, a as int, b as int, p as int)
                    &&& !is_square(3 * z * z + a, p as int)
                },
            Err(ArithmeticError::NotInvertible) => exists|z: int, w: int|
                {
                    &&& #[trigger] is_least_cubic_root(z, a as int, b as int, p as int)
                    &&& #[trigger] is_least_sqrt(w, 3 * z * z + a, p as int)
                    &&& !invertible(w, p as int)
                },
            Err(ArithmeticError::UnsupportedModulus) => false,
        },
{
    let z0 = match least_cubic_root(a, b, p) {
        Some(z) => z,
        None => {
            return Err(ArithmeticError::NotOnCurve);
        },
    };
    let zz = mod_mul(z0, z0, p);
    let term = mod_add(mod_mul(3, zz, p), a, p);
    proof {
        let (zi, pi) = (z0 as int, p as int);
        lemma_mod_twice(zi * zi, pi);
        lemma_mul_congruent(3, 3, zz as int, zi * zi, pi);
        lemma_mod_twice(3 * (zi * zi), pi);
        lemma_add_congruent(((3 * zz) % pi), 3 * (zi * zi), a as int, a as int, pi);
        assert(3 * (zi * zi) == 3 * zi * zi) by (nonlinear_arith);
        lemma_mod_twice(3 * zi * zi + a, pi);
        assert(term as int % pi == (3 * zi * zi + a) % pi);
    }
    let w = match modular_sqrt(term, p) {
        Some(w) => w,
        None => {
            proof {
                let n = 3 * z0 * z0 + a;
                if is_square(n, p as int) {
                    let y = choose|y: int| 0 <= y < p && #[trigger] ((y * y) % (p as int)) == n % (p as int);
                    assert((y * y) % (p as int) == term as int % p as int);
                }
            }
            return Err(ArithmeticError::NoSquareRoot);
        },
    };
    assert(is_least_sqrt(w as int, 3 * z0 * z0 + a, p as int));
    let s = match mod_inverse(w, p) {
        Ok(s) => s,
        Err(e) => {
            return Err(e);
        },
    };
    let big_a = mod_mul(mod_mul(3, z0, p), s, p);
    proof {
        let (zi, pi) = (z0 as int, p as int);
        lemma_mod_twice(3 * zi, pi);
        lemma_mul_congruent((3 * zi) % pi, 3 * zi, s as int, s as int, pi);
    }
    Ok((big_a, s))
}

} // verus!
