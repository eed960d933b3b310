//! Quadratic residues and square roots modulo `p`.

use vstd::prelude::*;
use vstd::arithmetic::div_mod::*;
use vstd::arithmetic::mul::*;
use vstd::arithmetic::power::*;
use crate::errors::ArithmeticError;
use crate::modular::{gcd, is_coprime, mod_exp, mod_mul, mod_pos};
use crate::number_theory::{
    divides, gcd_spec, lemma_divides_bound, lemma_gcd_greatest, lemma_mul_congruent,
};
use crate::primes::{is_prime, lemma_fermat, lemma_square_roots};

verus! {

/// The value that Euler's criterion inspects: `x^((p-1)/2)` modulo `p`.
/// For a prime `p` it is 1 for the squares other than zero, `p - 1` for the
/// non-squares and 0 for zero.
pub open spec fn euler_value(x: int, p: int) -> int {
    pow(x, ((p - 1) / 2) as nat) % p
}

/// Some number squares to `n` modulo `p`.
pub open spec fn is_square(n: int, p: int) -> bool {
    exists|y: int| 0 <= y < p && #[trigger] ((y * y) % p) == n % p
}

/// The square root that `mod_sqrt` returns.
///
/// The method is for moduli congruent to 3 modulo 4. Zero has the root 0.
/// Another `n` has a root if Euler's criterion gives 1, and then the root
/// is `n^((p+1)/4)` modulo `p`; its negative `p - root` is the other one.
pub open spec fn sqrt_spec(n: int, p: int) -> Result<int, ArithmeticError> {
    if p <= 0 || p % 4 != 3 {
        Err(ArithmeticError::UnsupportedModulus)
    } else if n % p == 0 {
        Ok(0)
    } else if euler_value(n % p, p) == 1 {
        Ok(pow(n % p, ((p + 1) / 4) as nat) % p)
    } else {
        Err(ArithmeticError::NoSquareRoot)
    }
}

/// Where Euler's criterion gives 1 and `p` is congruent to 3 modulo 4,
/// `a^((p+1)/4)` squares to `a`.
pub proof fn lemma_sqrt_is_root(a: int, p: int)
    requires
        p > 0,
        p % 4 == 3,
        euler_value(a, p) == 1,
    ensures
        ({
            let y = pow(a, ((p + 1) / 4) as nat) % p;
            0 <= y < p && (y * y) % p == a % p
        }),
{
    let k = ((p + 1) / 4) as nat;
    let h = ((p - 1) / 2) as nat;
    let y = pow(a, k) % p;
    lemma_mod_bound(pow(a, k), p);
    assert(k + k == h + 1);
    // y * y is congruent to a^(2k) = a^h * a, and a^h is congruent to 1
    lemma_mod_twice(pow(a, k), p);
    lemma_mul_congruent(y, pow(a, k), y, pow(a, k), p);
    lemma_pow_adds(a, k, k);
    lemma_pow_adds(a, h, 1);
    lemma_pow1(a);
    lemma_mul_mod_noop_left(pow(a, h), a, p);
    assert(1 * a == a);
}

/// The square root of `n` modulo `p`, for `p` congruent to 3 modulo 4.
///
/// The root returned is `n^((p+1)/4)` modulo `p`, and 0 for zero. Which of the
/// two roots that is depends on `n`; a caller who wants one of them by
/// parity or size compares with `p - root`.
pub fn mod_sqrt(n: i64, p: i64) -> (r: Result<i64, ArithmeticError>)
    ensures
        match r {
            Ok(y) => sqrt_spec(n as int, p as int) == Ok::<int, ArithmeticError>(y as int),
            Err(e) => sqrt_spec(n as int, p as int) == Err::<int, ArithmeticError>(e),
        },
        r matches Ok(y) ==> 0 <= y < p && (y * y) % (p as int) == n as int % p as int,
{
    if p <= 0 || p % 4 != 3 {
        return Err(ArithmeticError::UnsupportedModulus);
    }
    let a: i64 = mod_pos(n, p);
    if a == 0 {
        proof {
            lemma_small_mod(0, p as nat);
        }
        return Ok(0);
    }
    let modulus: u64 = p as u64;
    let euler: u64 = mod_exp(a as u64, (modulus - 1) / 2, modulus);
    if euler != 1 {
        return Err(ArithmeticError::NoSquareRoot);
    }
    let root: u64 = mod_exp(a as u64, (modulus + 1) / 4, modulus);
    proof {
        lemma_sqrt_is_root(a as int, p as int);
        lemma_mod_twice(n as int, p as int);
    }
    Ok(root as i64)
}

/// The smallest square root of `a` modulo `p` in `[0, p)`, found by trying
/// each candidate in turn; `None` where `a` is not a square. It works for
/// every positive modulus, in time proportional to `p`.
pub fn modular_sqrt(a: i64, p: i64) -> (r: Option<i64>)
    requires
        p > 0,
    ensures
        match r {
            Some(x) => {
                &&& 0 <= x < p
                &&& (x * x) % (p as int) == a as int % p as int
                &&& forall|y: int| 0 <= y < x ==> #[trigger] ((y * y) % (p as int)) != a as int % p as int
            },
            None => !is_square(a as int, p as int),
        },
{
    let target: i64 = mod_pos(a, p);
    let mut x: i64 = 0;
    while x < p
        invariant
            p > 0,
            0 <= x <= p,
            target == a as int % p as int,
            forall|y: int| 0 <= y < x ==> #[trigger] ((y * y) % (p as int)) != target,
        decreases p - x,
    {
        if mod_mul(x, x, p) == target {
            return Some(x);
        }
        x = x + 1;
    }
    None
}

/// Whether Euler's criterion is of no use for `x` and `p`: `x` is a unit
/// modulo `p`, yet `x^((p-1)/2)` is neither 1 nor `p - 1`. That happens for
/// no prime `p`.
pub open spec fn euler_inconclusive(x: int, p: int) -> bool {
    &&& gcd_spec(x as nat, p as nat) == 1
    &&& euler_value(x, p) != 1int % p
    &&& euler_value(x, p) != p - 1
}

/// Whether `x` is a quadratic residue modulo `p`, by Euler's criterion.
///
/// `Ok(true)` where `x^((p-1)/2)` is 1 and `Ok(false)` where it is `p - 1`.
/// Any other value means that the criterion does not apply: the error is
/// `NotInvertible` where `x` shares a factor with `p`, as zero does, and
/// `UnsupportedModulus` otherwise, which shows that `p` is not prime.
pub fn is_quadratic_residue(x: u64, p: u64) -> (r: Result<bool, ArithmeticError>)
    requires
        p > 0,
    ensures
        euler_value(x as int, p as int) == 1int % (p as int) ==> r == Ok::<bool, ArithmeticError>(
            true,
        ),
        euler_value(x as int, p as int) != 1int % (p as int) && euler_value(x as int, p as int) == p
            - 1 ==> r == Ok::<bool, ArithmeticError>(false),
        euler_value(x as int, p as int) != 1int % (p as int) && euler_value(x as int, p as int) != p
            - 1 ==> r == Err::<bool, ArithmeticError>(
            if gcd_spec(x as nat, p as nat) == 1 {
                ArithmeticError::UnsupportedModulus
            } else {
                ArithmeticError::NotInvertible
            },
        ),
{
    let exponent: u64 = (p - 1) / 2;
    let result: u64 = mod_exp(x, exponent, p);
    if result == 1 % p {
        Ok(true)
    } else if result == p - 1 {
        Ok(false)
    } else if gcd(x, p) == 1 {
        Err(ArithmeticError::UnsupportedModulus)
    } else {
        Err(ArithmeticError::NotInvertible)
    }
}

/// Whether `x` belongs in the list of quadratic residues modulo `p`: a unit
/// in `[1, p)` for which Euler's criterion gives 1.
pub open spec fn is_listed_residue(x: int, p: int) -> bool {
    &&& 1 <= x < p
    &&& gcd_spec(x as nat, p as nat) == 1
    &&& euler_value(x, p) == 1int % p
}

/// `v` holds the listed residues modulo `p`, each once, in rising order.
pub open spec fn lists_residues(v: Seq<u64>, p: int) -> bool {
    &&& forall|i: int, j: int| 0 <= i < j < v.len() ==> v[i] < v[j]
    &&& forall|i: int| 0 <= i < v.len() ==> is_listed_residue(#[trigger] v[i] as int, p)
    &&& forall|x: int| #[trigger]
        is_listed_residue(x, p) ==> exists|i: int| 0 <= i < v.len() && #[trigger] v[i] == x
}

/// The quadratic residues modulo an odd `p` among the units in `[1, p)`, in
/// rising order, each found by Euler's criterion.
///
/// The error is `UnsupportedModulus` where `p` is below 2 or even, and where
/// the criterion gives neither 1 nor `p - 1` for some unit, which shows that
/// `p` is not prime.
pub fn list_quadratic_residues(p: u64) -> (r: Result<Vec<u64>, ArithmeticError>)
    ensures
        match r {
            Ok(v) => {
                &&& p >= 2 && p % 2 == 1
                &&& lists_residues(v@, p as int)
                &&& forall|x: int| 1 <= x < p ==> !#[trigger] euler_inconclusive(x, p as int)
            },
            Err(e) => {
                &&& e == ArithmeticError::UnsupportedModulus
                &&& p < 2 || p % 2 == 0 || exists|x: int|
                    1 <= x < p && #[trigger] euler_inconclusive(x, p as int)
            },
        },
{
    if p < 2 || p % 2 == 0 {
        return Err(ArithmeticError::UnsupportedModulus);
    }
    let mut residues: Vec<u64> = Vec::new();
    let mut x: u64 = 1;
    while x < p
        invariant
            p >= 2,
            p % 2 == 1,
            1 <= x <= p,
            forall|i: int, j: int| 0 <= i < j < residues.len() ==> residues[i] < residues[j],
            forall|i: int|
                0 <= i < residues.len() ==> is_listed_residue(
                    #[trigger] residues[i] as int,
                    p as int,
                ) && residues[i] < x,
            forall|y: int|
                1 <= y < x && #[trigger] is_listed_residue(y, p as int) ==> exists|i: int|
                    0 <= i < residues.len() && #[trigger] residues[i] == y,
            forall|y: int| 1 <= y < x ==> !#[trigger] euler_inconclusive(y, p as int),
        decreases p - x,
    {
        if is_coprime(x, p) {
            match is_quadratic_residue(x, p) {
                Ok(true) => {
                    let ghost before = residues@;
                    residues.push(x);
                    proof {
                        assert forall|y: int|
                            1 <= y < x + 1 && #[trigger] is_listed_residue(
                                y,
                                p as int,
                            ) implies exists|i: int|
                            0 <= i < residues.len() && #[trigger] residues[i] == y by {
                            if y < x {
                                let i = choose|i: int|
                                    0 <= i < before.len() && #[trigger] before[i] == y;
                                assert(residues[i] == y);
                            } else {
                                assert(residues[before.len() as int] == y);
                            }
                        }
                    }
                },
                Ok(false) => {},
                Err(e) => {
                    assert(euler_inconclusive(x as int, p as int));
                    return Err(e);
                },
            }
        }
        x = x + 1;
    }
    proof {
        assert forall|y: int| #[trigger] is_listed_residue(y, p as int) implies exists|i: int|
            0 <= i < residues.len() && #[trigger] residues[i] == y by {
            assert(1 <= y < x);
        }
        assert(lists_residues(residues@, p as int));
    }
    Ok(residues)
}

/// Euler's criterion gives 1 for the square of a unit modulo an odd prime.
pub proof fn lemma_euler_of_square(z: int, p: int)
    requires
        is_prime(p),
        p % 2 == 1,
        z % p != 0,
    ensures
        euler_value((z * z) % p, p) == 1,
{
    let h = ((p - 1) / 2) as nat;
    lemma_pow_mod_noop(z * z, h, p);
    lemma_square_is_pow2(z);
    lemma_pow_multiplies(z, 2, h);
    assert(2 * h == p - 1);
    lemma_fermat(z, p);
}

/// Modulo a prime congruent to 3 modulo 4, every square has a root, and
/// `mod_sqrt` finds one: the value it returns squares to `n`.
pub proof fn lemma_sqrt_of_square(n: int, p: int)
    requires
        is_prime(p),
        p % 4 == 3,
        is_square(n, p),
    ensures
        sqrt_spec(n, p) matches Ok(y) && 0 <= y < p && (y * y) % p == n % p,
{
    lemma_mod_bound(n, p);
    lemma_mod_twice(n, p);
    if n % p == 0 {
        assert(0int * 0int == 0);
    } else {
        let z = choose|y: int| 0 <= y < p && #[trigger] ((y * y) % p) == n % p;
        if z % p == 0 {
            lemma_small_mod(z as nat, p as nat);
            assert(0int * 0int == 0);
        }
        lemma_euler_of_square(z, p);
        lemma_sqrt_is_root(n % p, p);
    }
}

/// What has no square root gets none: for a modulus congruent to 3 modulo 4
/// `mod_sqrt` reports `NoSquareRoot` for every non-square.
pub proof fn lemma_sqrt_of_non_square(n: int, p: int)
    requires
        p > 0,
        p % 4 == 3,
        !is_square(n, p),
    ensures
        sqrt_spec(n, p) == Err::<int, ArithmeticError>(ArithmeticError::NoSquareRoot),
{
    lemma_mod_twice(n, p);
    if n % p == 0 {
        assert((0int * 0int) % p == n % p) by {
            assert(0int * 0int == 0);
            lemma_small_mod(0, p as nat);
        }
    } else if euler_value(n % p, p) == 1 {
        lemma_sqrt_is_root(n % p, p);
        let y = pow(n % p, ((p + 1) / 4) as nat) % p;
        assert((y * y) % p == n % p);
    }
}

/// For a prime modulus Euler's criterion decides every unit: the value it
/// inspects is 1 or `p - 1`.
pub proof fn lemma_euler_conclusive(x: int, p: int)
    requires
        is_prime(p),
        x >= 0,
    ensures
        !euler_inconclusive(x, p),
{
    if gcd_spec(x as nat, p as nat) == 1 {
        let h = ((p - 1) / 2) as nat;
        let e = euler_value(x, p);
        lemma_mod_bound(pow(x, h), p);
        lemma_small_mod(1, p as nat);
        if x % p == 0 {
            // then p divides x and itself, hence their greatest common divisor
            lemma_mod_self_0(p);
            lemma_gcd_greatest(x as nat, p as nat, p);
            lemma_divides_bound(p, 1);
        }
        if p % 2 == 1 {
            // e * e is congruent to x^(p-1), which is 1
            lemma_mod_twice(pow(x, h), p);
            lemma_mul_congruent(e, pow(x, h), e, pow(x, h), p);
            lemma_pow_adds(x, h, h);
            assert(h + h == p - 1);
            lemma_fermat(x, p);
            assert(1int * 1int == 1);
            lemma_square_roots(e, 1, p);
            lemma_small_mod(e as nat, p as nat);
            lemma_mod_add_multiples_vanish(-1, p);
            lemma_small_mod((p - 1) as nat, p as nat);
        } else {
            // the only even prime is 2
            if p > 2 {
                assert(p % 2 == 0);
            }
            lemma_pow0(x);
        }
    }
}

} // verus!
