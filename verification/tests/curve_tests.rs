use ec_arithmetic::curve::{add, double, is_on_curve, negate, Curve, Point};
use ec_arithmetic::enumeration::{find_all_points, is_point_on_curve, prime_curve};
use ec_arithmetic::errors::ArithmeticError;
use ec_arithmetic::f5x2::F5x2;
use ec_arithmetic::prime_field::{PrimeElement, PrimeField};
use ec_arithmetic::quadratic_field::QuadraticElement;
use ec_arithmetic::scalar::scalar_mul;

fn at(x: i64, y: i64) -> Point<PrimeElement> {
    Point::Affine(PrimeElement { value: x }, PrimeElement { value: y })
}

fn curves_for_laws() -> Vec<Curve<PrimeElement>> {
    vec![
        prime_curve(4, 4, 7).unwrap(),
        prime_curve(8, 8, 13).unwrap(),
        prime_curve(8, 2, 17).unwrap(),
        prime_curve(4, 4, 19).unwrap(),
    ]
}

#[test]
fn curve_needs_a_positive_modulus() {
    let curve = prime_curve(11, -3, 7).unwrap();
    assert_eq!(curve.a, PrimeElement { value: 4 });
    assert_eq!(curve.b, PrimeElement { value: 4 });
    assert_eq!(curve.field, PrimeField { modulus: 7 });
    assert_eq!(prime_curve(4, 4, 0).err(), Some(ArithmeticError::UnsupportedModulus));
    assert_eq!(prime_curve(4, 4, -7).err(), Some(ArithmeticError::UnsupportedModulus));
}

#[test]
fn membership_reproduces_the_point_set_of_the_small_curve() {
    let curve = prime_curve(4, 4, 7).unwrap();
    let expected = [(0, 2), (0, 5), (1, 3), (1, 4), (3, 1), (3, 6), (4, 0), (5, 3), (5, 4)];
    for x in 0..7 {
        for y in 0..7 {
            let on = expected.contains(&(x, y));
            assert_eq!(is_on_curve(&at(x, y), &curve), on);
            assert_eq!(is_point_on_curve(x, y, 4, 4, 7), on);
        }
    }
    // 5^2 = 4 but 1 + 4 + 4 = 2 modulo 7
    assert!(!is_on_curve(&at(1, 5), &curve));
    assert!(is_on_curve(&Point::Identity, &curve));
}

#[test]
fn membership_accepts_unreduced_and_negative_integers() {
    assert!(is_point_on_curve(7, 9, 4, 4, 7));
    assert!(is_point_on_curve(-7, -2, -3, 11, 7));
    assert!(!is_point_on_curve(-6, 5, 4, 4, 7));
    assert!(is_point_on_curve(i64::MAX, 0, 0, 0, i64::MAX));
}

#[test]
fn identity_is_neutral() {
    for curve in curves_for_laws() {
        for p in find_all_points(&curve) {
            assert_eq!(add(&p, &Point::Identity, &curve), Ok(p));
            assert_eq!(add(&Point::Identity, &p, &curve), Ok(p));
        }
    }
}

#[test]
fn a_point_and_its_mirror_image_add_to_the_identity() {
    for curve in curves_for_laws() {
        let m = curve.field.modulus;
        for p in find_all_points(&curve) {
            if let Point::Affine(x, y) = p {
                let mirror = at(x.value, (m - y.value) % m);
                assert_eq!(negate(&p, &curve), mirror);
                assert_eq!(add(&p, &mirror, &curve), Ok(Point::Identity));
            } else {
                assert_eq!(negate(&p, &curve), Point::Identity);
            }
        }
    }
}

#[test]
fn addition_is_commutative() {
    for curve in curves_for_laws() {
        let points = find_all_points(&curve);
        for p in &points {
            for q in &points {
                assert_eq!(add(p, q, &curve), add(q, p, &curve));
            }
        }
    }
}

#[test]
fn addition_is_associative_on_small_curves() {
    for curve in curves_for_laws().into_iter().take(3) {
        let points = find_all_points(&curve);
        for p in &points {
            for q in &points {
                let pq = add(p, q, &curve).unwrap();
                for r in &points {
                    let qr = add(q, r, &curve).unwrap();
                    assert_eq!(add(&pq, r, &curve), add(p, &qr, &curve));
                }
            }
        }
    }
}

#[test]
fn sums_of_curve_points_stay_on_the_curve() {
    for curve in curves_for_laws() {
        let points = find_all_points(&curve);
        for p in &points {
            for q in &points {
                let sum = add(p, q, &curve).unwrap();
                assert!(is_on_curve(&sum, &curve));
            }
        }
    }
}

#[test]
fn doubling_is_adding_a_point_to_itself() {
    for curve in curves_for_laws() {
        for p in find_all_points(&curve) {
            assert_eq!(double(&p, &curve), add(&p, &p, &curve));
        }
    }
    let curve = prime_curve(4, 4, 19).unwrap();
    assert_eq!(double(&at(6, 4), &curve), Ok(at(13, 12)));
    assert_eq!(double(&Point::Identity, &curve), Ok(Point::Identity));
}

#[test]
fn doubling_a_point_of_order_two_gives_the_identity() {
    let curve = prime_curve(4, 4, 7).unwrap();
    assert_eq!(double(&at(4, 0), &curve), Ok(Point::Identity));
    let curve = prime_curve(8, 8, 13).unwrap();
    assert_eq!(add(&at(4, 0), &at(4, 0), &curve), Ok(Point::Identity));
}

#[test]
fn chord_and_tangent_formulas_give_exact_values() {
    let curve = prime_curve(4, 4, 19).unwrap();
    assert_eq!(add(&at(6, 4), &at(13, 12), &curve), Ok(at(11, 12)));
    assert_eq!(add(&at(13, 12), &at(6, 4), &curve), Ok(at(11, 12)));
    let curve = prime_curve(4, 713, 713).unwrap();
    assert_eq!(add(&at(488, 488), &at(522, 502), &curve), Ok(at(579, 565)));
    assert_eq!(double(&at(488, 488), &curve), Ok(at(106, 676)));
}

#[test]
fn addition_reports_a_slope_without_inverse() {
    // modulo 15 the difference 3 - 0 shares a factor with the modulus
    let curve = prime_curve(1, 1, 15).unwrap();
    assert!(is_on_curve(&at(0, 1), &curve));
    assert!(is_on_curve(&at(3, 4), &curve));
    assert_eq!(add(&at(0, 1), &at(3, 4), &curve), Err(ArithmeticError::NotInvertible));
    // equal abscissas with ordinates that are neither equal nor opposite
    assert_eq!(add(&at(0, 1), &at(0, 4), &curve), Err(ArithmeticError::NotInvertible));
}

#[test]
fn scalar_multiple_of_seven() {
    let curve = prime_curve(4, 4, 19).unwrap();
    assert_eq!(scalar_mul(&at(6, 4), 7, &curve), Ok(at(17, 8)));
}

#[test]
fn scalar_multiplication_by_zero_and_one() {
    let curve = prime_curve(4, 4, 19).unwrap();
    assert_eq!(scalar_mul(&at(6, 4), 0, &curve), Ok(Point::Identity));
    assert_eq!(scalar_mul(&at(6, 4), 1, &curve), Ok(at(6, 4)));
    assert_eq!(scalar_mul(&Point::Identity, 5, &curve), Ok(Point::Identity));
    assert_eq!(scalar_mul(&Point::Identity, u64::MAX, &curve), Ok(Point::Identity));
}

#[test]
fn scalar_multiplication_agrees_with_repeated_addition() {
    let curve = prime_curve(4, 4, 19).unwrap();
    let expected = [
        (6, 4), (13, 12), (11, 12), (0, 17), (14, 7), (3, 9), (17, 8), (1, 3), (9, 3), (2, 1),
        (8, 4), (5, 15), (15, 0), (5, 4), (8, 15), (2, 18), (9, 16), (1, 16), (17, 11), (3, 10),
    ];
    let p = at(6, 4);
    let mut sum = Point::Identity;
    assert_eq!(scalar_mul(&p, 0, &curve), Ok(sum));
    for k in 1..=20u64 {
        sum = add(&sum, &p, &curve).unwrap();
        let (x, y) = expected[(k - 1) as usize];
        assert_eq!(sum, at(x, y));
        assert_eq!(scalar_mul(&p, k, &curve), Ok(sum));
    }
}

#[test]
fn scalar_multiplication_wraps_around_the_order() {
    // the point has order 26 on this curve of 26 points
    let curve = prime_curve(4, 4, 19).unwrap();
    let p = at(6, 4);
    assert_eq!(scalar_mul(&p, 26, &curve), Ok(Point::Identity));
    assert_eq!(scalar_mul(&p, 27, &curve), Ok(p));
    assert_eq!(scalar_mul(&p, 26 * 1_000_000_007 + 7, &curve), Ok(at(17, 8)));
}

#[test]
fn scalar_multiplication_reports_a_failed_addition() {
    let curve = prime_curve(1, 1, 15).unwrap();
    let mut failed = false;
    for k in 0..20 {
        if scalar_mul(&at(0, 1), k, &curve) == Err(ArithmeticError::NotInvertible) {
            failed = true;
        }
    }
    assert!(failed);
}

#[test]
fn group_law_over_the_field_with_25_elements() {
    let field = F5x2::field();
    let curve = Curve { a: F5x2::new(1, 0).element(), b: F5x2::new(1, 0).element(), field };
    let p = Point::Affine(F5x2::new(3, 4).element(), F5x2::new(4, 3).element());
    let q = Point::Affine(F5x2::new(3, 3).element(), F5x2::new(3, 0).element());
    assert!(is_on_curve(&p, &curve));
    assert!(is_on_curve(&q, &curve));
    let sum = Point::Affine(QuadraticElement { a: 0, b: 0 }, QuadraticElement { a: 4, b: 0 });
    assert_eq!(add(&p, &q, &curve), Ok(sum));
    assert_eq!(add(&q, &p, &curve), Ok(sum));
    assert!(is_on_curve(&sum, &curve));
    let twice = Point::Affine(QuadraticElement { a: 2, b: 2 }, QuadraticElement { a: 0, b: 1 });
    assert_eq!(double(&p, &curve), Ok(twice));
    assert_eq!(scalar_mul(&p, 2, &curve), Ok(twice));
    assert_eq!(add(&p, &negate(&p, &curve), &curve), Ok(Point::Identity));
    assert_eq!(add(&p, &Point::Identity, &curve), Ok(p));
}

#[test]
fn identity_test_tells_the_two_kinds_of_point_apart() {
    assert!(Point::<PrimeElement>::Identity.is_identity());
    assert!(!at(0, 2).is_identity());
}

#[test]
fn point_equality_compares_coordinates() {
    assert!(at(0, 2).equals(&at(0, 2)));
    assert!(!at(0, 2).equals(&at(0, 5)));
    assert!(!at(0, 2).equals(&at(1, 2)));
    assert!(!at(0, 0).equals(&Point::Identity));
    assert!(!Point::Identity.equals(&at(0, 0)));
    assert!(Point::<PrimeElement>::Identity.equals(&Point::Identity));
}
