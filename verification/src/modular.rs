//! Integer arithmetic modulo a positive modulus.
//!
//! In contracts `%` is the Euclidean remainder: for a positive modulus `m`,
//! `x % m` lies in `[0, m)` whatever the sign of `x`.

use vstd::prelude::*;
use vstd::arithmetic::div_mod::*;
use vstd::arithmetic::mul::*;
use vstd::arithmetic::power::*;
use crate::errors::ArithmeticError;
use crate::number_theory::{
    gcd_spec, invertible, inverse_of, is_inverse, lemma_common_divisor_not_invertible,
    lemma_gcd_divides, lemma_inverse_of, lemma_invertible_congruent, lemma_mod_of_negative,
    lemma_mul_congruent, lemma_pow_step, lemma_sub_congruent,
};

verus! {

/// Reduces a wide intermediate value into `[0, m)`.
fn reduce(x: i128, m: i64) -> (r: i64)
    requires
        m > 0,
    ensures
        r == x as int % m as int,
        0 <= r < m,
{
    let wide: i128 = m as i128;
    let t: i128 = x % wide;
    proof {
        lemma_mod_bound(x as int, m as int);
        if x < 0 {
            lemma_mod_of_negative(x as int, m as int);
        }
    }
    if t < 0 {
        (t + wide) as i64
    } else {
        t as i64
    }
}

/// Folds `a` into the range `[0, m)`.
pub fn mod_pos(a: i64, m: i64) -> (r: i64)
    requires
        m > 0,
    ensures
        r == a as int % m as int,
        0 <= r < m,
{
    reduce(a as i128, m)
}

/// The residue of `x` modulo `m` in `[0, m)`, taken with a single division.
/// Called on a negated value it negates modulo `m`: `mod_neg(-y, m)` is the
/// additive inverse of `y`.
pub fn mod_neg(x: i64, m: i64) -> (r: i64)
    requires
        m > 0,
    ensures
        r == x as int % m as int,
        0 <= r < m,
{
    let t: i64 = x % m;
    proof {
        lemma_mod_bound(x as int, m as int);
        if x < 0 {
            lemma_mod_of_negative(x as int, m as int);
        }
    }
    if t < 0 {
        t + m
    } else {
        t
    }
}

/// The sum of `a` and `b` modulo `m`.
pub fn mod_add(a: i64, b: i64, m: i64) -> (r: i64)
    requires
        m > 0,
    ensures
        r == (a + b) % m as int,
        0 <= r < m,
{
    reduce(a as i128 + b as i128, m)
}

/// The difference of `a` and `b` modulo `m`.
pub fn mod_sub(a: i64, b: i64, m: i64) -> (r: i64)
    requires
        m > 0,
    ensures
        r == (a - b) % m as int,
        0 <= r < m,
{
    reduce(a as i128 - b as i128, m)
}

/// The product of `a` and `b` modulo `m`.
pub fn mod_mul(a: i64, b: i64, m: i64) -> (r: i64)
    requires
        m > 0,
    ensures
        r == (a * b) % m as int,
        0 <= r < m,
{
    assert(-0x4000_0000_0000_0000_0000_0000_0000_0000 <= a * b
        <= 0x4000_0000_0000_0000_0000_0000_0000_0000) by (nonlinear_arith)
        requires
            -0x8000_0000_0000_0000 <= a <= 0x7fff_ffff_ffff_ffff,
            -0x8000_0000_0000_0000 <= b <= 0x7fff_ffff_ffff_ffff,
    ;
    reduce(a as i128 * b as i128, m)
}

/// The greatest common divisor of `a` and `b`.
pub fn gcd(a: u64, b: u64) -> (r: u64)
    ensures
        r == gcd_spec(a as nat, b as nat),
    decreases b,
{
    if b == 0 {
        a
    } else {
        gcd(b, a % b)
    }
}

/// Whether `x` and `p` have no common factor above 1.
pub fn is_coprime(x: u64, p: u64) -> (r: bool)
    ensures
        r == (gcd_spec(x as nat, p as nat) == 1),
{
    gcd(x, p) == 1
}

/// `base` raised to `exponent`, modulo `modulus`, by square-and-multiply.
pub fn mod_exp(base: u64, exponent: u64, modulus: u64) -> (r: u64)
    requires
        modulus > 0,
    ensures
        r == pow(base as int, exponent as nat) % (modulus as int),
        r < modulus,
{
    let wide: u128 = modulus as u128;
    let mut result: u64 = 1 % modulus;
    let mut b: u64 = base % modulus;
    let mut e: u64 = exponent;
    proof {
        lemma_pow_mod_noop(base as int, exponent as nat, modulus as int);
        lemma_mod_twice(1, modulus as int);
        lemma_mul_congruent(
            result as int,
            1,
            pow(b as int, e as nat),
            pow(b as int, e as nat),
            modulus as int,
        );
    }
    while e > 0
        invariant
            modulus > 0,
            wide == modulus,
            result < modulus,
            b < modulus,
            (result * pow(b as int, e as nat)) % (modulus as int) == pow(
                base as int,
                exponent as nat,
            ) % (modulus as int),
        decreases e,
    {
        proof {
            lemma_pow_step(result as int, b as int, e as nat, modulus as int);
            lemma_mul_upper_bound(result as int, modulus as int, b as int, modulus as int);
            lemma_mul_upper_bound(b as int, modulus as int, b as int, modulus as int);
            lemma_mul_nonnegative(result as int, b as int);
            lemma_mul_nonnegative(b as int, b as int);
            lemma_mul_upper_bound(
                modulus as int,
                0xffff_ffff_ffff_ffff,
                modulus as int,
                0xffff_ffff_ffff_ffff,
            );
        }
        if e % 2 == 1 {
            result = ((result as u128 * b as u128) % wide) as u64;
        }
        b = ((b as u128 * b as u128) % wide) as u64;
        e = e / 2;
    }
    proof {
        lemma_pow0(b as int);
        lemma_small_mod(result as nat, modulus as nat);
    }
    result
}

/// The inverse of `a` modulo `m`, by the extended Euclidean algorithm.
///
/// It is the one `y` in `[0, m)` with `a * y` congruent to 1, and there is
/// one exactly when `a` and `m` have no common factor above 1.
pub fn mod_inverse(a: i64, m: i64) -> (r: Result<i64, ArithmeticError>)
    requires
        m > 0,
    ensures
        match r {
            Ok(y) => is_inverse(a as int, y as int, m as int) && y == inverse_of(
                a as int,
                m as int,
            ),
            Err(e) => e == ArithmeticError::NotInvertible && !invertible(a as int, m as int),
        },
        r is Ok <==> gcd_spec((a as int % m as int) as nat, m as nat) == 1,
{
    let a0: i64 = mod_pos(a, m);
    let mut t: i128 = 0;
    let mut new_t: i128 = 1;
    let mut r: i64 = m;
    let mut new_r: i64 = a0;
    proof {
        lemma_mod_self_0(m as int);
        lemma_small_mod(0, m as nat);
        assert(m * vstd::math::abs(1) + a0 * vstd::math::abs(0) == m) by (nonlinear_arith);
    }
    while new_r != 0
        invariant
            m > 0,
            0 <= a0 < m,
            0 <= new_r < r <= m || (r == m && new_r == a0),
            0 <= new_r,
            0 < r <= m,
            (t * a0) % (m as int) == r as int % m as int,
            (new_t * a0) % (m as int) == new_r as int % m as int,
            gcd_spec(r as nat, new_r as nat) == gcd_spec(m as nat, a0 as nat),
            (t <= 0 && new_t >= 0) || (t >= 0 && new_t <= 0),
            r * vstd::math::abs(new_t as int) + new_r * vstd::math::abs(t as int) == m,
            -m <= t <= m,
            -m <= new_t <= m,
        decreases new_r,
    {
        let q: i64 = r / new_r;
        proof {
            let (ti, nti, ri, nri, qi, mi, ai) = (
                t as int,
                new_t as int,
                r as int,
                new_r as int,
                q as int,
                m as int,
                a0 as int,
            );
            lemma_fundamental_div_mod(ri, nri);
            lemma_mod_bound(ri, nri);
            lemma_div_pos_is_pos(ri, nri);
            assert(qi * nri == ri - ri % nri) by {
                lemma_mul_is_commutative(qi, nri);
            }
            assert(0 <= qi <= mi) by {
                lemma_div_is_ordered_by_denominator(ri, 1, nri);
                lemma_div_basics_2(ri);
            }
            assert(-mi * mi <= qi * nti <= mi * mi) by (nonlinear_arith)
                requires
                    0 <= qi <= mi,
                    -mi <= nti <= mi,
            ;
            assert(mi * mi <= 0x4000_0000_0000_0000_0000_0000_0000_0000) by (nonlinear_arith)
                requires
                    0 < mi <= 0x7fff_ffff_ffff_ffff,
            ;
            // the next coefficient stays congruent to the next remainder
            assert(((ti - qi * nti) * ai) % mi == (ri - qi * nri) % mi) by {
                lemma_mul_congruent(qi, qi, nti * ai, nri, mi);
                lemma_sub_congruent(ti * ai, ri, qi * (nti * ai), qi * nri, mi);
                assert((ti - qi * nti) * ai == ti * ai - qi * (nti * ai)) by (nonlinear_arith);
            }
            // the weighted sum of the coefficients stays equal to the modulus
            assert(nri * vstd::math::abs(ti - qi * nti) + (ri - qi * nri) * vstd::math::abs(nti)
                == mi) by (nonlinear_arith)
                requires
                    (ti <= 0 && nti >= 0) || (ti >= 0 && nti <= 0),
                    ri * vstd::math::abs(nti) + nri * vstd::math::abs(ti) == mi,
                    qi >= 0,
            ;
            assert(vstd::math::abs(ti - qi * nti) <= mi) by (nonlinear_arith)
                requires
                    nri * vstd::math::abs(ti - qi * nti) + (ri - qi * nri) * vstd::math::abs(nti)
                        == mi,
                    nri >= 1,
                    ri - qi * nri >= 0,
            ;
            assert((ti <= 0 && nti >= 0) ==> ti - qi * nti <= 0) by (nonlinear_arith)
                requires
                    qi >= 0,
            ;
            assert((ti >= 0 && nti <= 0) ==> ti - qi * nti >= 0) by (nonlinear_arith)
                requires
                    qi >= 0,
            ;
        }
        let next_t: i128 = t - (q as i128) * new_t;
        let next_r: i64 = r - q * new_r;
        t = new_t;
        new_t = next_t;
        r = new_r;
        new_r = next_r;
    }
    proof {
        lemma_gcd_divides(m as nat, a0 as nat);
        lemma_mod_twice(a as int, m as int);
        // gcd(a0, m) unfolds to gcd(m, a0 % m), and a0 is reduced
        lemma_small_mod(a0 as nat, m as nat);
        assert(gcd_spec(a0 as nat, m as nat) == gcd_spec(m as nat, a0 as nat));
    }
    if r > 1 {
        proof {
            lemma_common_divisor_not_invertible(a0 as int, m as int, r as int);
            lemma_invertible_congruent(a as int, a0 as int, m as int);
        }
        Err(ArithmeticError::NotInvertible)
    } else {
        let y: i64 = reduce(t, m);
        proof {
            lemma_mod_twice(t as int, m as int);
            lemma_mul_congruent(a as int, a0 as int, y as int, t as int, m as int);
            lemma_mul_is_commutative(t as int, a0 as int);
            lemma_inverse_of(a as int, y as int, m as int);
        }
        Ok(y)
    }
}

/// The inverse of an invertible `a` modulo `m`.
pub fn mod_inv(a: i64, m: i64) -> (r: i64)
    requires
        m > 0,
        invertible(a as int, m as int),
    ensures
        is_inverse(a as int, r as int, m as int),
        r == inverse_of(a as int, m as int),
{
    match mod_inverse(a, m) {
        Ok(y) => y,
        Err(_) => unreached(),
    }
}

} // verus!
