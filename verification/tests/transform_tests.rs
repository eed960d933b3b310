use ec_arithmetic::curve::Point;
use ec_arithmetic::enumeration::{find_all_points, prime_curve};
use ec_arithmetic::errors::ArithmeticError;
use ec_arithmetic::isomorphism::Isomorphism;
use ec_arithmetic::montgomery::short_weierstrass_to_montgomery;
use ec_arithmetic::prime_field::{PrimeElement, PrimeField};

fn el(value: i64) -> PrimeElement {
    PrimeElement { value }
}

fn tp(x: i64, y: i64) -> Point<PrimeElement> {
    Point::Affine(el(x), el(y))
}

#[test]
fn scaling_maps_a_curve_onto_the_scaled_curve() {
    // u = 2 takes y^2 = x^3 + 2x + 4 to y^2 = x^3 + 16*2 x + 64*4 = x^3 + 4x + 4
    let source = prime_curve(2, 4, 7).unwrap();
    let target = prime_curve(4, 4, 7).unwrap();
    let iso = Isomorphism::new(el(2), el(0), el(0), el(0));
    let images = [(0, 2), (0, 5), (4, 0), (1, 3), (1, 4), (5, 3), (5, 4), (3, 1), (3, 6)];
    let points = find_all_points(&source);
    for (point, (x, y)) in points.iter().skip(1).zip(images) {
        assert_eq!(iso.transform_point(point, &source.field), tp(x, y));
        assert_eq!(iso.transform_onto(point, &target), Ok(tp(x, y)));
    }
    assert_eq!(iso.transform_point(&Point::Identity, &source.field), Point::Identity);
    assert_eq!(iso.transform_onto(&Point::Identity, &target), Ok(Point::Identity));
}

#[test]
fn a_shifted_image_misses_the_scaled_curve() {
    let source = prime_curve(2, 4, 7).unwrap();
    let target = prime_curve(4, 4, 7).unwrap();
    let iso = Isomorphism::new(el(2), el(1), el(0), el(0));
    assert_eq!(iso.transform_point(&tp(0, 2), &source.field), tp(1, 2));
    assert_eq!(iso.transform_point(&tp(6, 6), &source.field), tp(4, 6));
    for point in find_all_points(&source).iter().skip(1) {
        assert_eq!(iso.transform_onto(point, &target), Err(ArithmeticError::NotOnCurve));
    }
}

#[test]
fn change_of_coordinates_with_all_four_parameters() {
    // x' = 9*4 + 2 = 5 and y' = 27*1 + 9*5*4 + 6 = 4 modulo 11
    let field = PrimeField { modulus: 11 };
    let iso = Isomorphism::new(el(3), el(2), el(5), el(6));
    assert_eq!(iso.transform_point(&tp(4, 1), &field), tp(5, 4));
}

#[test]
fn montgomery_form_of_the_sample_curve() {
    // least root 8, least square root of 3*64 + 8 = 13 is 8, and 1/8 = 15 modulo 17
    assert_eq!(short_weierstrass_to_montgomery(8, 2, 17), Ok((3, 15)));
}

#[test]
fn montgomery_form_with_the_root_zero() {
    assert_eq!(short_weierstrass_to_montgomery(1, 0, 7), Ok((0, 1)));
    assert_eq!(short_weierstrass_to_montgomery(3, 0, 11), Ok((0, 9)));
}

#[test]
fn montgomery_form_needs_a_root_of_the_cubic() {
    assert_eq!(short_weierstrass_to_montgomery(1, 1, 5), Err(ArithmeticError::NotOnCurve));
}

#[test]
fn montgomery_form_needs_a_square() {
    assert_eq!(short_weierstrass_to_montgomery(2, 3, 7), Err(ArithmeticError::NoSquareRoot));
    assert_eq!(short_weierstrass_to_montgomery(4, 4, 7), Err(ArithmeticError::NoSquareRoot));
    assert_eq!(short_weierstrass_to_montgomery(5, 0, 13), Err(ArithmeticError::NoSquareRoot));
}

#[test]
fn montgomery_form_needs_an_invertible_root() {
    assert_eq!(short_weierstrass_to_montgomery(0, 0, 7), Err(ArithmeticError::NotInvertible));
}

#[test]
fn montgomery_form_reduces_its_coefficients() {
    assert_eq!(short_weierstrass_to_montgomery(8 + 17, 2 - 34, 17), Ok((3, 15)));
}
