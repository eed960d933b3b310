//! The embedding degree of a subgroup, computed in arbitrary precision.

use vstd::prelude::*;
use vstd::arithmetic::power::*;
use num_bigint::BigUint;
use crate::errors::ArithmeticError;

verus! {

/// The unsigned big integers of `num_bigint`, opaque to the verifier.
#[verifier::external_type_specification]
#[verifier::external_body]
pub struct ExBigUint(BigUint);

/// The natural number that a big integer stands for.
pub uninterp spec fn biguint_value(n: BigUint) -> nat;

/// `BigUint`'s implementation of `num_traits::One::one`: the big integer 1.
#[verifier::external_body]
fn big_one() -> (r: BigUint)
    ensures
        biguint_value(r) == 1,
{
    num_traits::One::one()
}

/// `&BigUint * &BigUint`: the exact product.
#[verifier::external_body]
fn big_mul(a: &BigUint, b: &BigUint) -> (r: BigUint)
    ensures
        biguint_value(r) == biguint_value(*a) * biguint_value(*b),
{
    a * b
}

/// `&BigUint - &BigUint`: the exact difference. The subtraction panics where
/// `b` is larger than `a`, which the precondition excludes.
#[verifier::external_body]
fn big_sub(a: &BigUint, b: &BigUint) -> (r: BigUint)
    requires
        biguint_value(*a) >= biguint_value(*b),
    ensures
        biguint_value(r) == biguint_value(*a) - biguint_value(*b),
{
    a - b
}

/// `&BigUint % &BigUint`: the remainder of the division. The division panics
/// for a zero divisor, which the precondition excludes.
#[verifier::external_body]
fn big_rem(a: &BigUint, b: &BigUint) -> (r: BigUint)
    requires
        biguint_value(*b) > 0,
    ensures
        biguint_value(r) == biguint_value(*a) % biguint_value(*b),
{
    a % b
}

/// `BigUint`'s implementation of `num_traits::Zero::is_zero`: whether the
/// big integer is 0.
#[verifier::external_body]
fn big_is_zero(a: &BigUint) -> (r: bool)
    ensures
        r == (biguint_value(*a) == 0),
{
    num_traits::Zero::is_zero(a)
}

/// `r` divides `p^k - 1`.
pub open spec fn divides_power_minus_one(r: nat, p: nat, k: nat) -> bool {
    (pow(p as int, k) - 1) % (r as int) == 0
}

/// The embedding degree of a subgroup of order `r` of a curve over the field
/// with `p` elements: the least `k >= 1` such that `r` divides `p^k - 1`.
/// The search tries `k = 1, 2, ..., cap` on the full powers and gives `None`
/// where none of them will do.
pub fn compute_embedding_degree(p: &BigUint, r: &BigUint, cap: u32) -> (degree: Option<u32>)
    requires
        biguint_value(*p) >= 1,
        biguint_value(*r) >= 1,
    ensures
        match degree {
            Some(k) => {
                &&& 1 <= k <= cap
                &&& divides_power_minus_one(biguint_value(*r), biguint_value(*p), k as nat)
                &&& forall|j: nat|
                    1 <= j < k ==> !#[trigger] divides_power_minus_one(
                        biguint_value(*r),
                        biguint_value(*p),
                        j,
                    )
            },
            None => forall|j: nat|
                1 <= j <= cap ==> !#[trigger] divides_power_minus_one(
                    biguint_value(*r),
                    biguint_value(*p),
                    j,
                ),
        },
{
    let one = big_one();
    let mut power = big_one();
    let mut k: u32 = 0;
    proof {
        lemma_pow0(biguint_value(*p) as int);
    }
    while k < cap
        invariant
            0 <= k <= cap,
            biguint_value(*p) >= 1,
            biguint_value(*r) >= 1,
            biguint_value(one) == 1,
            biguint_value(power) == pow(biguint_value(*p) as int, k as nat),
            forall|j: nat|
                1 <= j <= k ==> !#[trigger] divides_power_minus_one(
                    biguint_value(*r),
                    biguint_value(*p),
                    j,
                ),
        decreases cap - k,
    {
        proof {
            let base = biguint_value(*p) as int;
            lemma_pow_adds(base, k as nat, 1);
            lemma_pow1(base);
            lemma_pow_positive(base, (k + 1) as nat);
        }
        power = big_mul(&power, p);
        k = k + 1;
        let reduced = big_sub(&power, &one);
        let remainder = big_rem(&reduced, r);
        if big_is_zero(&remainder) {
            return Some(k);
        }
    }
    None
}

/// The embedding degree as `compute_embedding_degree` finds it, for any
/// pair of big integers: a field size or a subgroup order of zero is
/// reported as `UnsupportedModulus`.
pub fn checked_embedding_degree(p: &BigUint, r: &BigUint, cap: u32) -> (degree: Result<
    Option<u32>,
    ArithmeticError,
>)
    ensures
        match degree {
            Ok(Some(k)) => {
                &&& biguint_value(*p) >= 1 && biguint_value(*r) >= 1
                &&& 1 <= k <= cap
                &&& divides_power_minus_one(biguint_value(*r), biguint_value(*p), k as nat)
                &&& forall|j: nat|
                    1 <= j < k ==> !#[trigger] divides_power_minus_one(
                        biguint_value(*r),
                        biguint_value(*p),
                        j,
                    )
            },
            Ok(None) => {
                &&& biguint_value(*p) >= 1 && biguint_value(*r) >= 1
                &&& forall|j: nat|
                    1 <= j <= cap ==> !#[trigger] divides_power_minus_one(
                        biguint_value(*r),
                        biguint_value(*p),
                        j,
                    )
            },
            Err(e) => {
                &&& e == ArithmeticError::UnsupportedModulus
                &&& biguint_value(*p) == 0 || biguint_value(*r) == 0
            },
        },
{
    if big_is_zero(p) || big_is_zero(r) {
        Err(ArithmeticError::UnsupportedModulus)
    } else {
        Ok(compute_embedding_degree(p, r, cap))
    }
}

} // verus!
