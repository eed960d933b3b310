use ec_arithmetic::embedding::{checked_embedding_degree, compute_embedding_degree};
use ec_arithmetic::errors::ArithmeticError;
use num_bigint::BigUint;

#[test]
fn embedding_degree_of_order_two_over_thirteen() {
    let p = BigUint::from(13u32);
    let r = BigUint::from(2u32);
    assert_eq!(compute_embedding_degree(&p, &r, 100000), Some(1));
}

#[test]
fn embedding_degree_is_the_least_exponent() {
    // 7^k - 1 = 6, 48, 342, ...; 19 divides 342
    let p = BigUint::from(7u32);
    assert_eq!(compute_embedding_degree(&p, &BigUint::from(19u32), 10), Some(3));
    // 5 divides 7^4 - 1 = 2400 and none before
    assert_eq!(compute_embedding_degree(&p, &BigUint::from(5u32), 10), Some(4));
    assert_eq!(compute_embedding_degree(&p, &BigUint::from(5u32), 3), None);
}

#[test]
fn embedding_degree_needs_no_exponent_for_order_one() {
    assert_eq!(compute_embedding_degree(&BigUint::from(11u32), &BigUint::from(1u32), 5), Some(1));
    assert_eq!(compute_embedding_degree(&BigUint::from(11u32), &BigUint::from(1u32), 0), None);
}

#[test]
fn embedding_degree_is_none_when_order_shares_a_factor_with_the_field() {
    assert_eq!(compute_embedding_degree(&BigUint::from(6u32), &BigUint::from(3u32), 50), None);
}

#[test]
fn embedding_degree_works_beyond_machine_words() {
    // 10^20 is congruent to 2 modulo 7, and 2 has order 3 there
    let p = BigUint::from(10u32).pow(20);
    let r = BigUint::from(7u32);
    assert_eq!(compute_embedding_degree(&p, &r, 100), Some(3));
    // a modulus of 35 digits: 10^40 - 1 = (10^20 - 1) * (10^20 + 1)
    let r = BigUint::from(10u32).pow(20) + BigUint::from(1u32);
    assert_eq!(compute_embedding_degree(&BigUint::from(10u32), &r, 100), Some(40));
}

#[test]
fn checked_embedding_degree_refuses_zero() {
    let zero = BigUint::from(0u32);
    let seven = BigUint::from(7u32);
    assert_eq!(checked_embedding_degree(&zero, &seven, 10), Err(ArithmeticError::UnsupportedModulus));
    assert_eq!(checked_embedding_degree(&seven, &zero, 10), Err(ArithmeticError::UnsupportedModulus));
    assert_eq!(checked_embedding_degree(&zero, &zero, 0), Err(ArithmeticError::UnsupportedModulus));
}

#[test]
fn checked_embedding_degree_agrees_on_positive_values() {
    let seven = BigUint::from(7u32);
    for r in 1..40u32 {
        let r = BigUint::from(r);
        assert_eq!(checked_embedding_degree(&seven, &r, 50), Ok(compute_embedding_degree(&seven, &r, 50)));
    }
    assert_eq!(checked_embedding_degree(&seven, &BigUint::from(19u32), 10), Ok(Some(3)));
    assert_eq!(checked_embedding_degree(&seven, &BigUint::from(14u32), 10), Ok(None));
}
