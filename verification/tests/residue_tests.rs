use ec_arithmetic::errors::ArithmeticError;
use ec_arithmetic::residues::{is_quadratic_residue, list_quadratic_residues, mod_sqrt, modular_sqrt};

#[test]
fn sqrt_of_four_modulo_seven_is_two() {
    // the root returned is 4^((7+1)/4) = 16 = 2 modulo 7; the other root is 5
    assert_eq!(mod_sqrt(4, 7), Ok(2));
}

#[test]
fn sqrt_returns_the_power_root_for_every_square() {
    let expected = [(0, 0), (1, 1), (4, 17), (5, 9), (6, 5), (7, 11), (9, 16), (11, 7), (16, 4), (17, 6)];
    for (n, root) in expected {
        assert_eq!(mod_sqrt(n, 19), Ok(root));
        assert_eq!((root * root) % 19, n);
    }
    assert_eq!(mod_sqrt(1, 7), Ok(1));
    assert_eq!(mod_sqrt(2, 7), Ok(4));
}

#[test]
fn sqrt_of_a_non_square_is_refused() {
    for n in [3, 5, 6] {
        assert_eq!(mod_sqrt(n, 7), Err(ArithmeticError::NoSquareRoot));
    }
    for n in [2, 3, 8, 10, 12, 13, 14, 15, 18] {
        assert_eq!(mod_sqrt(n, 19), Err(ArithmeticError::NoSquareRoot));
    }
}

#[test]
fn sqrt_of_zero_is_zero() {
    assert_eq!(mod_sqrt(0, 7), Ok(0));
    assert_eq!(mod_sqrt(14, 7), Ok(0));
    assert_eq!(mod_sqrt(-7, 7), Ok(0));
}

#[test]
fn sqrt_reduces_its_argument_first() {
    assert_eq!(mod_sqrt(11, 7), Ok(2));
    assert_eq!(mod_sqrt(-3, 7), Ok(2));
}

#[test]
fn sqrt_refuses_moduli_not_congruent_to_three_modulo_four() {
    for p in [13, 17, 5, 2, 4, 8, 1, 0, -7, -1, i64::MIN] {
        assert_eq!(mod_sqrt(4, p), Err(ArithmeticError::UnsupportedModulus));
    }
}

#[test]
fn sqrt_works_at_the_top_of_the_range() {
    // the largest 64-bit value is congruent to 3 modulo 4, though not prime
    let p = i64::MAX;
    assert_eq!(mod_sqrt(0, p), Ok(0));
    assert_eq!(mod_sqrt(1, p), Ok(1));
}

#[test]
fn modular_sqrt_finds_the_least_root() {
    assert_eq!(modular_sqrt(4, 7), Some(2));
    assert_eq!(modular_sqrt(2, 7), Some(3));
    assert_eq!(modular_sqrt(0, 7), Some(0));
    assert_eq!(modular_sqrt(3, 7), None);
    // a modulus congruent to 1 modulo 4
    assert_eq!(modular_sqrt(13, 17), Some(8));
    assert_eq!(modular_sqrt(-4, 17), Some(8));
    assert_eq!(modular_sqrt(3, 17), None);
    // a composite modulus
    assert_eq!(modular_sqrt(4, 15), Some(2));
    assert_eq!(modular_sqrt(0, 1), Some(0));
}

#[test]
fn quadratic_residue_by_euler_criterion() {
    assert_eq!(is_quadratic_residue(4, 7), Ok(true));
    assert_eq!(is_quadratic_residue(3, 7), Ok(false));
    assert_eq!(is_quadratic_residue(10, 13), Ok(true));
    assert_eq!(is_quadratic_residue(2, 13), Ok(false));
    assert_eq!(is_quadratic_residue(1, 2), Ok(true));
}

#[test]
fn quadratic_residue_reports_where_the_criterion_does_not_apply() {
    // zero and other multiples of a factor of the modulus
    assert_eq!(is_quadratic_residue(0, 7), Err(ArithmeticError::NotInvertible));
    assert_eq!(is_quadratic_residue(14, 7), Err(ArithmeticError::NotInvertible));
    assert_eq!(is_quadratic_residue(3, 9), Err(ArithmeticError::NotInvertible));
    // a unit of a composite modulus: 2^4 = 7 modulo 9
    assert_eq!(is_quadratic_residue(2, 9), Err(ArithmeticError::UnsupportedModulus));
    assert_eq!(is_quadratic_residue(7, 15), Err(ArithmeticError::UnsupportedModulus));
}

#[test]
fn residues_modulo_thirteen() {
    assert_eq!(list_quadratic_residues(13), Ok(vec![1, 3, 4, 9, 10, 12]));
}

#[test]
fn residues_modulo_small_primes() {
    assert_eq!(list_quadratic_residues(3), Ok(vec![1]));
    assert_eq!(list_quadratic_residues(7), Ok(vec![1, 2, 4]));
    assert_eq!(list_quadratic_residues(19), Ok(vec![1, 4, 5, 6, 7, 9, 11, 16, 17]));
}

#[test]
fn residues_need_an_odd_modulus_above_one() {
    for p in [0, 1, 2, 4, 10] {
        assert_eq!(list_quadratic_residues(p), Err(ArithmeticError::UnsupportedModulus));
    }
}

#[test]
fn residues_of_a_composite_modulus_are_refused() {
    assert_eq!(list_quadratic_residues(9), Err(ArithmeticError::UnsupportedModulus));
    assert_eq!(list_quadratic_residues(15), Err(ArithmeticError::UnsupportedModulus));
}

#[test]
fn every_square_has_a_root_and_every_other_value_has_none() {
    for p in [3i64, 7, 11, 19, 23, 31, 43] {
        let mut squares = vec![false; p as usize];
        for y in 0..p {
            squares[((y * y) % p) as usize] = true;
        }
        for n in 0..p {
            match mod_sqrt(n, p) {
                Ok(y) => {
                    assert!(squares[n as usize]);
                    assert!(0 <= y && y < p);
                    assert_eq!((y * y) % p, n);
                }
                Err(e) => {
                    assert!(!squares[n as usize]);
                    assert_eq!(e, ArithmeticError::NoSquareRoot);
                }
            }
        }
    }
}
