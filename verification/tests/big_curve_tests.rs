use ec_arithmetic::big_curve::{
    compress_point, decompress_point, mod_sqrt, BigCurve, BigIsomorphism, BigPoint,
};
use ec_arithmetic::errors::ArithmeticError;
use num_bigint::BigInt;

fn big(n: i64) -> BigInt {
    BigInt::from(n)
}

fn hex(digits: &str) -> BigInt {
    BigInt::parse_bytes(digits.as_bytes(), 16).unwrap()
}

fn small_curve() -> BigCurve {
    BigCurve { a: big(3), b: big(4), p: big(7) }
}

fn curve_of_256_bits() -> BigCurve {
    BigCurve {
        a: big(0),
        b: big(7),
        p: hex("FFFFFFFFFFFFFFFFFFFFFFFFFFFFFFFFFFFFFFFFFFFFFFFFFFFFFFFEFFFFFC2F"),
    }
}

fn base_point_of_256_bits() -> BigPoint {
    BigPoint {
        x: hex("79BE667EF9DCBBAC55A06295CE870B07029BFCDB2DCE28D959F2815B16F81798"),
        y: hex("483ADA7726A3C4655DA4FBFC0E1108A8FD17B448A68554199C47D08FFB10D4B8"),
    }
}

#[test]
fn big_sqrt_of_four_modulo_seven_is_two() {
    assert_eq!(mod_sqrt(&big(4), &big(7)), Ok(big(2)));
    assert_eq!(mod_sqrt(&big(2), &big(7)), Ok(big(4)));
    assert_eq!(mod_sqrt(&big(0), &big(7)), Ok(big(0)));
    assert_eq!(mod_sqrt(&big(-3), &big(7)), Ok(big(2)));
    assert_eq!(mod_sqrt(&big(-7), &big(7)), Ok(big(0)));
    assert_eq!(mod_sqrt(&big(5), &big(19)), Ok(big(9)));
}

#[test]
fn big_sqrt_reports_non_squares_and_unsupported_moduli() {
    assert_eq!(mod_sqrt(&big(3), &big(7)), Err(ArithmeticError::NoSquareRoot));
    assert_eq!(mod_sqrt(&big(-1), &big(7)), Err(ArithmeticError::NoSquareRoot));
    for p in [13, 17, 2, 1, 0, -7, -1] {
        assert_eq!(mod_sqrt(&big(4), &big(p)), Err(ArithmeticError::UnsupportedModulus));
    }
}

#[test]
fn big_sqrt_agrees_with_the_small_one() {
    for p in [3i64, 7, 11, 19, 23, 43] {
        for n in -p..2 * p {
            let small = ec_arithmetic::residues::mod_sqrt(n, p);
            assert_eq!(mod_sqrt(&big(n), &big(p)), small.map(big));
        }
    }
}

#[test]
fn big_compress_gives_abscissa_and_parity() {
    let curve = small_curve();
    assert_eq!(compress_point(&BigPoint { x: big(2), y: big(5) }, &curve), Ok((big(2), 1)));
    assert_eq!(compress_point(&BigPoint { x: big(2), y: big(2) }, &curve), Ok((big(2), 0)));
    assert_eq!(compress_point(&BigPoint { x: big(6), y: big(0) }, &curve), Ok((big(6), 0)));
}

#[test]
fn big_compress_refuses_what_is_no_point() {
    let curve = small_curve();
    let off = [(2, 3), (9, 5), (2, 12), (-5, 5), (2, -2), (7, 2)];
    for (x, y) in off {
        let point = BigPoint { x: big(x), y: big(y) };
        assert_eq!(compress_point(&point, &curve), Err(ArithmeticError::NotOnCurve));
    }
    let curve = BigCurve { a: big(3), b: big(4), p: big(0) };
    let point = BigPoint { x: big(2), y: big(5) };
    assert_eq!(compress_point(&point, &curve), Err(ArithmeticError::UnsupportedModulus));
}

#[test]
fn big_decompress_recovers_the_sample_point() {
    let curve = small_curve();
    assert_eq!(decompress_point(&big(2), 1, &curve), Ok(BigPoint { x: big(2), y: big(5) }));
    assert_eq!(decompress_point(&big(2), 0, &curve), Ok(BigPoint { x: big(2), y: big(2) }));
    assert_eq!(decompress_point(&big(6), 1, &curve), Ok(BigPoint { x: big(6), y: big(0) }));
    assert_eq!(decompress_point(&big(3), 0, &curve), Err(ArithmeticError::NoSquareRoot));
}

#[test]
fn big_decompress_needs_a_supported_modulus() {
    let curve = BigCurve { a: big(8), b: big(2), p: big(17) };
    assert_eq!(decompress_point(&big(0), 0, &curve), Err(ArithmeticError::UnsupportedModulus));
    let curve = BigCurve { a: big(8), b: big(2), p: big(-7) };
    assert_eq!(decompress_point(&big(0), 0, &curve), Err(ArithmeticError::UnsupportedModulus));
}

#[test]
fn big_decompress_takes_negative_coefficients() {
    // a = -4 is 3 modulo 7
    let curve = BigCurve { a: big(-4), b: big(-3), p: big(7) };
    assert_eq!(decompress_point(&big(2), 1, &curve), Ok(BigPoint { x: big(2), y: big(5) }));
}

#[test]
fn big_round_trip_on_a_curve_of_256_bits() {
    let curve = curve_of_256_bits();
    let point = base_point_of_256_bits();
    let (x, parity) = compress_point(&point, &curve).unwrap();
    assert_eq!(x, point.x);
    assert_eq!(parity, 0);
    assert_eq!(decompress_point(&x, parity, &curve), Ok(base_point_of_256_bits()));
    let mirror = BigPoint { x: point.x.clone(), y: &curve.p - &point.y };
    assert_eq!(compress_point(&mirror, &curve), Ok((point.x.clone(), 1)));
    assert_eq!(decompress_point(&point.x, 1, &curve), Ok(mirror));
}

#[test]
fn big_compress_refuses_a_point_off_the_large_curve() {
    let curve = curve_of_256_bits();
    let point = base_point_of_256_bits();
    let off = BigPoint { x: point.x, y: point.y + 1 };
    assert_eq!(compress_point(&off, &curve), Err(ArithmeticError::NotOnCurve));
}

#[test]
fn big_membership_reproduces_the_point_set_of_the_small_curve() {
    let curve = BigCurve { a: big(4), b: big(4), p: big(7) };
    let expected = [(0, 2), (0, 5), (1, 3), (1, 4), (3, 1), (3, 6), (4, 0), (5, 3), (5, 4)];
    for x in -2..9 {
        for y in -2..9 {
            let point = BigPoint { x: big(x), y: big(y) };
            assert_eq!(curve.contains_point(&point), expected.contains(&(x, y)));
        }
    }
    assert!(curve_of_256_bits().contains_point(&base_point_of_256_bits()));
    let nowhere = BigCurve { a: big(4), b: big(4), p: big(0) };
    assert!(!nowhere.contains_point(&BigPoint { x: big(0), y: big(2) }));
}

#[test]
fn big_scaling_maps_a_curve_onto_the_scaled_curve() {
    let target = BigCurve { a: big(4), b: big(4), p: big(7) };
    let iso = BigIsomorphism { u: big(2), r: big(0), s: big(0), t: big(0) };
    let pairs = [((0, 2), (0, 2)), ((1, 0), (4, 0)), ((2, 3), (1, 3)), ((6, 6), (3, 6))];
    for ((x, y), (ix, iy)) in pairs {
        let image = iso.transform_point(&BigPoint { x: big(x), y: big(y) }, &big(7)).unwrap();
        assert_eq!(image, BigPoint { x: big(ix), y: big(iy) });
        assert!(target.contains_point(&image));
    }
}

#[test]
fn big_change_of_coordinates_with_all_four_parameters() {
    let iso = BigIsomorphism { u: big(3), r: big(2), s: big(5), t: big(6) };
    let image = iso.transform_point(&BigPoint { x: big(4), y: big(1) }, &big(11));
    assert_eq!(image, Ok(BigPoint { x: big(5), y: big(4) }));
    // negative parameters are reduced into the field
    let iso = BigIsomorphism { u: big(-8), r: big(-9), s: big(-6), t: big(-5) };
    let image = iso.transform_point(&BigPoint { x: big(4), y: big(1) }, &big(11));
    assert_eq!(image, Ok(BigPoint { x: big(5), y: big(4) }));
}

#[test]
fn big_change_of_coordinates_needs_a_positive_field_order() {
    let iso = BigIsomorphism { u: big(2), r: big(1), s: big(0), t: big(0) };
    let point = BigPoint { x: big(0), y: big(2) };
    assert_eq!(iso.transform_point(&point, &big(0)), Err(ArithmeticError::UnsupportedModulus));
    assert_eq!(iso.transform_point(&point, &big(-7)), Err(ArithmeticError::UnsupportedModulus));
}
