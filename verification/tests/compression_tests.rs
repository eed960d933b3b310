use ec_arithmetic::compression::{compress, decompress};
use ec_arithmetic::curve::Point;
use ec_arithmetic::enumeration::{find_all_points, prime_curve};
use ec_arithmetic::errors::ArithmeticError;
use ec_arithmetic::prime_field::PrimeElement;

fn cp(x: i64, y: i64) -> Point<PrimeElement> {
    Point::Affine(PrimeElement { value: x }, PrimeElement { value: y })
}

#[test]
fn compress_gives_abscissa_and_parity() {
    let curve = prime_curve(3, 4, 7).unwrap();
    assert_eq!(compress(&cp(2, 5), &curve), Ok((PrimeElement { value: 2 }, 1)));
    assert_eq!(compress(&cp(2, 2), &curve), Ok((PrimeElement { value: 2 }, 0)));
    assert_eq!(compress(&cp(6, 0), &curve), Ok((PrimeElement { value: 6 }, 0)));
    assert_eq!(compress(&cp(1, 1), &curve), Ok((PrimeElement { value: 1 }, 0)));
    assert_eq!(compress(&cp(1, 6), &curve), Ok((PrimeElement { value: 1 }, 1)));
}

#[test]
fn compress_refuses_a_point_off_the_curve() {
    let curve = prime_curve(3, 4, 7).unwrap();
    assert_eq!(compress(&cp(2, 3), &curve), Err(ArithmeticError::NotOnCurve));
}

#[test]
fn decompress_recovers_the_sample_point() {
    let curve = prime_curve(3, 4, 7).unwrap();
    assert_eq!(decompress(PrimeElement { value: 2 }, 1, &curve), Ok(cp(2, 5)));
    assert_eq!(decompress(PrimeElement { value: 2 }, 0, &curve), Ok(cp(2, 2)));
    // any bit other than 0 asks for the larger root
    assert_eq!(decompress(PrimeElement { value: 2 }, 200, &curve), Ok(cp(2, 5)));
}

#[test]
fn decompress_refuses_an_abscissa_without_point() {
    let curve = prime_curve(3, 4, 7).unwrap();
    for x in [3, 4] {
        assert_eq!(decompress(PrimeElement { value: x }, 0, &curve), Err(ArithmeticError::NoSquareRoot));
        assert_eq!(decompress(PrimeElement { value: x }, 1, &curve), Err(ArithmeticError::NoSquareRoot));
    }
}

#[test]
fn decompress_needs_a_modulus_congruent_to_three_modulo_four() {
    let curve = prime_curve(8, 2, 17).unwrap();
    assert_eq!(decompress(PrimeElement { value: 0 }, 0, &curve), Err(ArithmeticError::UnsupportedModulus));
    let curve = prime_curve(8, 8, 13).unwrap();
    assert_eq!(decompress(PrimeElement { value: 1 }, 1, &curve), Err(ArithmeticError::UnsupportedModulus));
}

#[test]
fn decompress_of_a_zero_ordinate_ignores_the_bit() {
    let curve = prime_curve(3, 4, 7).unwrap();
    assert_eq!(decompress(PrimeElement { value: 6 }, 0, &curve), Ok(cp(6, 0)));
    assert_eq!(decompress(PrimeElement { value: 6 }, 1, &curve), Ok(cp(6, 0)));
}

#[test]
fn compression_round_trip_on_every_point() {
    for (a, b, p) in [(3, 4, 7), (4, 4, 7), (4, 4, 19), (2, 3, 23), (1, 1, 43), (0, 7, 31)] {
        let curve = prime_curve(a, b, p).unwrap();
        let points = find_all_points(&curve);
        assert!(points.len() > 1);
        for point in points.into_iter().skip(1) {
            let (x, parity) = compress(&point, &curve).unwrap();
            assert_eq!(decompress(x, parity, &curve), Ok(point));
        }
    }
}
