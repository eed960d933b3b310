use ec_arithmetic::curve::Point;
use ec_arithmetic::enumeration::{find_all_points, find_generators, find_r_torsion_points, prime_curve};
use ec_arithmetic::errors::ArithmeticError;
use ec_arithmetic::order::{find_order, point_order};
use ec_arithmetic::prime_field::PrimeElement;

fn ep(x: i64, y: i64) -> Point<PrimeElement> {
    Point::Affine(PrimeElement { value: x }, PrimeElement { value: y })
}

fn with_identity(pairs: &[(i64, i64)]) -> Vec<Point<PrimeElement>> {
    let mut v = vec![Point::Identity];
    v.extend(pairs.iter().map(|&(x, y)| ep(x, y)));
    v
}

#[test]
fn all_points_of_the_small_curve() {
    let curve = prime_curve(4, 4, 7).unwrap();
    let expected = with_identity(&[(0, 2), (0, 5), (1, 3), (1, 4), (3, 1), (3, 6), (4, 0), (5, 3), (5, 4)]);
    assert_eq!(find_all_points(&curve), expected);
}

#[test]
fn all_points_of_other_curves() {
    let curve = prime_curve(2, 4, 7).unwrap();
    let expected = with_identity(&[(0, 2), (0, 5), (1, 0), (2, 3), (2, 4), (3, 3), (3, 4), (6, 1), (6, 6)]);
    assert_eq!(find_all_points(&curve), expected);
    assert_eq!(find_all_points(&prime_curve(4, 4, 19).unwrap()).len(), 26);
    assert_eq!(find_all_points(&prime_curve(8, 8, 13).unwrap()).len(), 20);
    // modulo 1 the one pair of coordinates is a point
    assert_eq!(find_all_points(&prime_curve(0, 0, 1).unwrap()), with_identity(&[(0, 0)]));
}

#[test]
fn torsion_points_of_order_at_most_five() {
    let curve = prime_curve(8, 8, 13).unwrap();
    let expected = with_identity(&[(4, 0), (6, 5), (6, 8), (7, 2), (7, 11), (8, 5), (8, 8)]);
    assert_eq!(find_r_torsion_points(5, &curve), Ok(expected));
}

#[test]
fn torsion_points_for_small_bounds() {
    let curve = prime_curve(8, 8, 13).unwrap();
    assert_eq!(find_r_torsion_points(0, &curve), Ok(with_identity(&[])));
    assert_eq!(find_r_torsion_points(1, &curve), Ok(with_identity(&[])));
    assert_eq!(find_r_torsion_points(2, &curve), Ok(with_identity(&[(4, 0)])));
    assert_eq!(find_r_torsion_points(20, &curve), Ok(find_all_points(&curve)));
}

#[test]
fn torsion_search_reports_a_failed_addition() {
    let curve = prime_curve(1, 1, 15).unwrap();
    assert_eq!(find_r_torsion_points(30, &curve), Err(ArithmeticError::NotInvertible));
}

#[test]
fn generators_of_the_small_curve() {
    let curve = prime_curve(4, 4, 7).unwrap();
    let points = find_all_points(&curve);
    let expected = vec![ep(0, 2), ep(0, 5), ep(3, 1), ep(3, 6)];
    assert_eq!(find_generators(&points, &curve), Ok(expected));
}

#[test]
fn generators_of_a_cyclic_group_of_twenty_points() {
    let curve = prime_curve(8, 8, 13).unwrap();
    let points = find_all_points(&curve);
    let expected = vec![ep(9, 4), ep(9, 9), ep(10, 3), ep(10, 10), ep(11, 6), ep(11, 7), ep(12, 5), ep(12, 8)];
    assert_eq!(find_generators(&points, &curve), Ok(expected));
}

#[test]
fn generators_among_no_points() {
    let curve = prime_curve(4, 4, 7).unwrap();
    assert_eq!(find_generators(&Vec::new(), &curve), Ok(Vec::new()));
    assert_eq!(find_generators(&vec![Point::Identity], &curve), Ok(Vec::new()));
    // a single point of order two among two points
    assert_eq!(find_generators(&vec![Point::Identity, ep(4, 0)], &curve), Ok(vec![ep(4, 0)]));
}

#[test]
fn order_of_points() {
    let curve = prime_curve(4, 4, 7).unwrap();
    assert_eq!(point_order(&Point::Identity, 20, &curve), Ok(Some(1)));
    assert_eq!(point_order(&ep(4, 0), 20, &curve), Ok(Some(2)));
    assert_eq!(point_order(&ep(1, 3), 20, &curve), Ok(Some(5)));
    assert_eq!(point_order(&ep(0, 2), 20, &curve), Ok(Some(10)));
    assert_eq!(point_order(&ep(0, 2), 10, &curve), Ok(Some(10)));
}

#[test]
fn order_search_stops_at_the_cap() {
    let curve = prime_curve(4, 4, 7).unwrap();
    assert_eq!(point_order(&ep(0, 2), 9, &curve), Ok(None));
    assert_eq!(point_order(&ep(0, 2), 0, &curve), Ok(None));
    assert_eq!(point_order(&Point::Identity, 0, &curve), Ok(None));
}

#[test]
fn find_order_checks_the_point_first() {
    let curve = prime_curve(8, 2, 17).unwrap();
    assert_eq!(find_order(&ep(0, 5), 18, &curve), Err(ArithmeticError::NotOnCurve));
    assert_eq!(find_order(&ep(0, 6), 18, &curve), point_order(&ep(0, 6), 18, &curve));
    assert!(find_order(&ep(0, 6), 40, &curve).unwrap().is_some());
}

#[test]
fn order_search_reports_a_failed_addition() {
    let curve = prime_curve(1, 1, 15).unwrap();
    let mut failed = false;
    for p in find_all_points(&curve) {
        if point_order(&p, 40, &curve) == Err(ArithmeticError::NotInvertible) {
            failed = true;
        }
    }
    assert!(failed);
}
