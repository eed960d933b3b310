use ec_arithmetic::errors::ArithmeticError;
use ec_arithmetic::f5x2::F5x2;
use ec_arithmetic::field::{div, FieldElement};
use ec_arithmetic::prime_field::{PrimeElement, PrimeField};
use ec_arithmetic::quadratic_field::{QuadraticElement, QuadraticField};

fn fp(value: i64) -> PrimeElement {
    PrimeElement { value }
}

fn fq(a: i64, b: i64) -> QuadraticElement {
    QuadraticElement { a, b }
}

#[test]
fn prime_field_needs_a_positive_modulus() {
    assert_eq!(PrimeField::new(7), Ok(PrimeField { modulus: 7 }));
    assert_eq!(PrimeField::new(0), Err(ArithmeticError::UnsupportedModulus));
    assert_eq!(PrimeField::new(-5), Err(ArithmeticError::UnsupportedModulus));
}

#[test]
fn prime_element_is_stored_reduced() {
    let f = PrimeField { modulus: 7 };
    assert_eq!(PrimeElement::new(15, &f), fp(1));
    assert_eq!(PrimeElement::new(-1, &f), fp(6));
    assert_eq!(PrimeElement::new(7, &f), fp(0));
}

#[test]
fn prime_field_arithmetic() {
    let f = PrimeField { modulus: 7 };
    assert_eq!(fp(5).add(fp(6), &f), fp(4));
    assert_eq!(fp(2).sub(fp(5), &f), fp(4));
    assert_eq!(fp(3).mul(fp(5), &f), fp(1));
    assert_eq!(fp(3).neg(&f), fp(4));
    assert_eq!(fp(0).neg(&f), fp(0));
    assert_eq!(fp(3).inverse(&f), Ok(fp(5)));
    assert_eq!(fp(0).inverse(&f), Err(ArithmeticError::NotInvertible));
    assert_eq!(div(fp(2), fp(3), &f), Ok(fp(3)));
    assert_eq!(div(fp(2), fp(0), &f), Err(ArithmeticError::NotInvertible));
    assert_eq!(PrimeElement::zero(&f), fp(0));
    assert_eq!(PrimeElement::one(&f), fp(1));
    assert!(fp(0).is_zero(&f));
    assert!(!fp(3).is_zero(&f));
    assert!(fp(3).equals(fp(3)));
    assert!(!fp(3).equals(fp(4)));
}

#[test]
fn prime_field_with_modulus_one_has_a_single_element() {
    let f = PrimeField { modulus: 1 };
    assert_eq!(PrimeElement::one(&f), fp(0));
    assert_eq!(fp(0).inverse(&f), Ok(fp(0)));
}

#[test]
fn prime_field_arithmetic_does_not_overflow() {
    let p = 9_223_372_036_854_775_783i64;
    let f = PrimeField { modulus: p };
    let x = fp(p - 1);
    assert_eq!(x.add(x, &f), fp(p - 2));
    assert_eq!(x.mul(x, &f), fp(1));
    assert_eq!(x.inverse(&f), Ok(x));
    assert_eq!(fp(0).sub(x, &f), fp(1));
}

#[test]
fn division_undoes_multiplication_in_a_prime_field() {
    let f = PrimeField { modulus: 19 };
    for x in 0..19 {
        for y in 1..19 {
            let q = div(fp(x), fp(y), &f).unwrap();
            assert_eq!(q.mul(fp(y), &f), fp(x));
        }
    }
}

#[test]
fn quadratic_field_needs_a_positive_modulus() {
    assert_eq!(QuadraticField::new(5, 3), Ok(QuadraticField { modulus: 5, non_residue: 3 }));
    assert_eq!(QuadraticField::new(5, -2), Ok(QuadraticField { modulus: 5, non_residue: 3 }));
    assert_eq!(QuadraticField::new(0, 3), Err(ArithmeticError::UnsupportedModulus));
}

#[test]
fn quadratic_field_arithmetic() {
    let f = QuadraticField { modulus: 5, non_residue: 3 };
    assert_eq!(QuadraticElement::new(8, -1, &f), fq(3, 4));
    assert_eq!(fq(3, 4).add(fq(4, 3), &f), fq(2, 2));
    assert_eq!(fq(3, 4).sub(fq(4, 3), &f), fq(4, 1));
    // (3 + 4t)(2 + t) = 6 + 11t + 4t^2 = 6 + 12 + 11t = 3 + t
    assert_eq!(fq(3, 4).mul(fq(2, 1), &f), fq(3, 1));
    assert_eq!(fq(3, 4).neg(&f), fq(2, 1));
    assert_eq!(fq(3, 4).norm(&f), 1);
    assert_eq!(fq(3, 4).inverse(&f), Ok(fq(3, 1)));
    assert_eq!(fq(0, 1).inverse(&f), Ok(fq(0, 2)));
    assert_eq!(fq(2, 0).inverse(&f), Ok(fq(3, 0)));
    assert_eq!(fq(0, 0).inverse(&f), Err(ArithmeticError::NotInvertible));
    assert_eq!(div(fq(1, 2), fq(3, 4), &f), Ok(fq(4, 2)));
    assert_eq!(div(fq(1, 2), fq(0, 0), &f), Err(ArithmeticError::NotInvertible));
    assert_eq!(QuadraticElement::zero(&f), fq(0, 0));
    assert_eq!(QuadraticElement::one(&f), fq(1, 0));
    assert!(fq(0, 0).is_zero(&f));
    assert!(!fq(0, 1).is_zero(&f));
    assert!(fq(1, 2).equals(fq(1, 2)));
    assert!(!fq(1, 2).equals(fq(2, 1)));
}

#[test]
fn every_non_zero_element_of_the_quadratic_field_has_an_inverse() {
    for (p, c) in [(5i64, 3i64), (7, 3), (11, 2), (3, 2)] {
        let f = QuadraticField { modulus: p, non_residue: c };
        for a in 0..p {
            for b in 0..p {
                let x = fq(a, b);
                if a == 0 && b == 0 {
                    assert_eq!(x.inverse(&f), Err(ArithmeticError::NotInvertible));
                } else {
                    let y = x.inverse(&f).unwrap();
                    assert_eq!(x.mul(y, &f), fq(1, 0));
                }
            }
        }
    }
}

#[test]
fn zero_norm_elements_have_no_inverse_when_t_squared_is_a_square() {
    // with t^2 = 4 modulo 5 the ring is not a field: 2 + t has norm 0
    let f = QuadraticField { modulus: 5, non_residue: 4 };
    assert_eq!(fq(2, 1).norm(&f), 0);
    assert_eq!(fq(2, 1).inverse(&f), Err(ArithmeticError::NotInvertible));
    assert_eq!(fq(1, 0).inverse(&f), Ok(fq(1, 0)));
}

#[test]
fn quadratic_field_is_a_commutative_ring() {
    let f = QuadraticField { modulus: 5, non_residue: 3 };
    let all: Vec<QuadraticElement> = (0..5).flat_map(|a| (0..5).map(move |b| fq(a, b))).collect();
    for &x in &all {
        for &y in &all {
            assert_eq!(x.mul(y, &f), y.mul(x, &f));
            assert_eq!(x.add(y, &f), y.add(x, &f));
            assert_eq!(x.sub(y, &f), x.add(y.neg(&f), &f));
            for &z in all.iter().step_by(3) {
                assert_eq!(x.mul(y, &f).mul(z, &f), x.mul(y.mul(z, &f), &f));
                assert_eq!(x.mul(y.add(z, &f), &f), x.mul(y, &f).add(x.mul(z, &f), &f));
            }
        }
    }
}

#[test]
fn f5x2_reduces_its_coefficients() {
    assert_eq!(F5x2::new(7, 13), F5x2 { a: 2, b: 3 });
    assert_eq!(F5x2::new(5, 0), F5x2 { a: 0, b: 0 });
    assert_eq!(F5x2::new(255, 254), F5x2 { a: 0, b: 4 });
}

#[test]
fn f5x2_arithmetic() {
    let x = F5x2::new(3, 4);
    let y = F5x2::new(4, 3);
    assert_eq!(x.add(y), F5x2::new(2, 2));
    assert_eq!(x.sub(y), F5x2::new(4, 1));
    assert_eq!(x.mul(F5x2::new(2, 1)), F5x2::new(3, 1));
    assert_eq!(x.inverse(), Ok(F5x2::new(3, 1)));
    assert_eq!(F5x2::new(0, 1).inverse(), Ok(F5x2::new(0, 2)));
    assert_eq!(F5x2::new(2, 0).inverse(), Ok(F5x2::new(3, 0)));
    assert_eq!(F5x2::new(1, 2).div(x), Ok(F5x2::new(4, 2)));
}

#[test]
fn f5x2_zero_has_no_inverse() {
    assert_eq!(F5x2::new(0, 0).inverse(), Err(ArithmeticError::NotInvertible));
    assert_eq!(F5x2::new(1, 1).div(F5x2::new(0, 0)), Err(ArithmeticError::NotInvertible));
}

#[test]
fn f5x2_mod_inverse_searches_from_one() {
    assert_eq!(F5x2::mod_inverse(3, 5), 2);
    assert_eq!(F5x2::mod_inverse(1, 5), 1);
    assert_eq!(F5x2::mod_inverse(4, 5), 4);
    assert_eq!(F5x2::mod_inverse(3, 7), 5);
    // where there is no inverse the result is 1
    assert_eq!(F5x2::mod_inverse(0, 5), 1);
    assert_eq!(F5x2::mod_inverse(2, 4), 1);
    assert_eq!(F5x2::mod_inverse(3, 0), 1);
    assert_eq!(F5x2::mod_inverse(255, 254), 1);
}

#[test]
fn f5x2_agrees_with_the_general_quadratic_field() {
    let f = F5x2::field();
    assert_eq!(f, QuadraticField { modulus: 5, non_residue: 3 });
    for a in 0..5u8 {
        for b in 0..5u8 {
            let x = F5x2::new(a, b);
            assert_eq!(x.element(), fq(a as i64, b as i64));
            for c in 0..5u8 {
                for d in 0..5u8 {
                    let y = F5x2::new(c, d);
                    assert_eq!(x.add(y).element(), x.element().add(y.element(), &f));
                    assert_eq!(x.sub(y).element(), x.element().sub(y.element(), &f));
                    assert_eq!(x.mul(y).element(), x.element().mul(y.element(), &f));
                    assert_eq!(x.div(y).map(|q| q.element()), div(x.element(), y.element(), &f));
                }
            }
        }
    }
}
