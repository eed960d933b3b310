use ec_arithmetic::errors::ArithmeticError;
use ec_arithmetic::modular::{
    gcd, is_coprime, mod_add, mod_exp, mod_inv, mod_inverse, mod_mul, mod_neg, mod_pos, mod_sub,
};

#[test]
fn mod_pos_folds_negative_values() {
    assert_eq!(mod_pos(-1, 7), 6);
    assert_eq!(mod_pos(-14, 7), 0);
    assert_eq!(mod_pos(15, 7), 1);
    assert_eq!(mod_pos(0, 1), 0);
    assert_eq!(mod_pos(i64::MIN, i64::MAX), i64::MAX - 1);
}

#[test]
fn mod_add_sub_mul_reduce() {
    assert_eq!(mod_add(5, 6, 7), 4);
    assert_eq!(mod_add(-5, -6, 7), 3);
    assert_eq!(mod_add(i64::MAX, i64::MAX, 10), 4);
    assert_eq!(mod_sub(2, 5, 7), 4);
    assert_eq!(mod_mul(3, 5, 7), 1);
    assert_eq!(mod_mul(-3, 5, 7), 6);
    assert_eq!(mod_mul(i64::MAX, i64::MAX, i64::MAX), 0);
}

#[test]
fn inverse_of_three_modulo_seven_is_five() {
    assert_eq!(mod_inverse(3, 7), Ok(5));
    assert_eq!(mod_inv(3, 7), 5);
}

#[test]
fn inverse_fails_without_coprimality() {
    assert_eq!(mod_inverse(0, 7), Err(ArithmeticError::NotInvertible));
    assert_eq!(mod_inverse(14, 7), Err(ArithmeticError::NotInvertible));
    assert_eq!(mod_inverse(6, 9), Err(ArithmeticError::NotInvertible));
    assert_eq!(mod_inverse(0, 1), Ok(0));
}

#[test]
fn inverse_times_value_is_one_for_every_unit() {
    for m in 2..60i64 {
        for a in 1..m {
            if is_coprime(a as u64, m as u64) {
                let y = mod_inverse(a, m).unwrap();
                assert!(0 <= y && y < m);
                assert_eq!((a * y) % m, 1);
            } else {
                assert_eq!(mod_inverse(a, m), Err(ArithmeticError::NotInvertible));
            }
        }
    }
}

#[test]
fn inverse_handles_negative_and_large_operands() {
    assert_eq!(mod_inverse(-3, 7), Ok(2));
    let p = 9_223_372_036_854_775_783i64;
    let y = mod_inverse(2, p).unwrap();
    assert_eq!(mod_mul(2, y, p), 1);
}

#[test]
fn gcd_and_coprimality() {
    assert_eq!(gcd(12, 18), 6);
    assert_eq!(gcd(0, 5), 5);
    assert_eq!(gcd(5, 0), 5);
    assert_eq!(gcd(0, 0), 0);
    assert!(is_coprime(4, 9));
    assert!(!is_coprime(6, 9));
}

#[test]
fn mod_exp_matches_repeated_multiplication() {
    assert_eq!(mod_exp(4, 3, 7), 1);
    assert_eq!(mod_exp(2, 10, 1000), 24);
    assert_eq!(mod_exp(5, 0, 13), 1);
    assert_eq!(mod_exp(5, 0, 1), 0);
    assert_eq!(mod_exp(0, 0, 7), 1);
    assert_eq!(mod_exp(u64::MAX, 2, u64::MAX - 1), 1);
}

#[test]
fn mod_neg_of_a_negated_value_is_the_additive_inverse() {
    assert_eq!(mod_neg(-2, 7), 5);
    assert_eq!(mod_neg(-5, 7), 2);
    assert_eq!(mod_neg(0, 7), 0);
    assert_eq!(mod_neg(-7, 7), 0);
    assert_eq!(mod_neg(9, 7), 2);
    assert_eq!(mod_neg(i64::MIN, i64::MAX), i64::MAX - 1);
    for x in -30..30 {
        assert_eq!(mod_neg(x, 7), mod_pos(x, 7));
    }
}
