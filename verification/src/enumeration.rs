//! Exhaustive searches over a curve with a small prime field: its points,
//! the points of small order and the generators of its group.

use vstd::prelude::*;
use vstd::arithmetic::div_mod::*;
use crate::curve::{is_on_curve, on_curve, Curve, Point};
use crate::errors::ArithmeticError;
use crate::field::FieldElement;
use crate::modular::{mod_add, mod_mul};
use crate::number_theory::{lemma_add_congruent, lemma_mul_congruent};
use crate::order::{order_spec, point_order};
use crate::prime_field::{PrimeElement, PrimeField};

verus! {

/// The curve `y^2 = x^3 + a*x + b` over the integers modulo `modulus`, with
/// the coefficients reduced; `UnsupportedModulus` where the modulus is not
/// positive.
pub fn prime_curve(a: i64, b: i64, modulus: i64) -> (r: Result<Curve<PrimeElement>, ArithmeticError>)
    ensures
        match r {
            Ok(curve) => {
                &&& modulus > 0
                &&& curve.wf()
                &&& curve.field.modulus == modulus
                &&& curve.a.value == a as int % modulus as int
                &&& curve.b.value == b as int % modulus as int
            },
            Err(e) => modulus <= 0 && e == ArithmeticError::UnsupportedModulus,
        },
{
    if modulus <= 0 {
        return Err(ArithmeticError::UnsupportedModulus);
    }
    let field = PrimeField { modulus };
    Ok(Curve { a: PrimeElement::new(a, &field), b: PrimeElement::new(b, &field), field })
}

/// Whether `(x, y)` satisfies `y^2 = x^3 + a*x + b` modulo `m`, for
/// integers of either sign that need not be reduced.
pub fn is_point_on_curve(x: i64, y: i64, a: i64, b: i64, m: i64) -> (r: bool)
    requires
        m > 0,
    ensures
        r == ((y * y) % (m as int) == (x * x * x + a * x + b) % (m as int)),
{
    let left = mod_mul(y, y, m);
    let xx = mod_mul(x, x, m);
    let xxx = mod_mul(xx, x, m);
    let ax = mod_mul(a, x, m);
    let sum = mod_add(xxx, ax, m);
    let right = mod_add(sum, b, m);
    proof {
        let mi = m as int;
        lemma_mod_twice(x * x, mi);
        lemma_mul_congruent(xx as int, x * x, x as int, x as int, mi);
        lemma_mod_twice(x * x * x, mi);
        lemma_mod_twice(a * x, mi);
        lemma_add_congruent(xxx as int, x * x * x, ax as int, a * x, mi);
        lemma_mod_twice(x * x * x + a * x, mi);
        lemma_add_congruent(sum as int, x * x * x + a * x, b as int, b as int, mi);
    }
    left == right
}

/// The affine point with the coordinates `(x, y)`.
pub open spec fn affine(x: int, y: int) -> Point<PrimeElement> {
    Point::Affine(PrimeElement { value: x as i64 }, PrimeElement { value: y as i64 })
}

/// `(x1, y1)` comes before `(x2, y2)` when pairs are ordered by `x` first.
pub open spec fn pair_before(x1: int, y1: int, x2: int, y2: int) -> bool {
    x1 < x2 || (x1 == x2 && y1 < y2)
}

/// `v` holds the identity and then, ordered by `x` first and `y` second and
/// each once, the points `(x, y)` of the curve with reduced coordinates that
/// come before `(xb, yb)`.
pub open spec fn lists_points_before(
    v: Seq<Point<PrimeElement>>,
    curve: Curve<PrimeElement>,
    xb: int,
    yb: int,
) -> bool {
    let m = curve.field.modulus as int;
    &&& v.len() >= 1
    &&& v[0] is Identity
    &&& forall|i: int|
        1 <= i < v.len() ==> {
            &&& (#[trigger] v[i]) matches Point::Affine(x, y)
            &&& 0 <= x.value < m
            &&& 0 <= y.value < m
            &&& on_curve(v[i], curve)
            &&& pair_before(x.value as int, y.value as int, xb, yb)
        }
    &&& forall|i: int, j: int|
        1 <= i < j < v.len() ==> pair_before(
            ((#[trigger] v[i])->0).value as int,
            (v[i]->1).value as int,
            ((#[trigger] v[j])->0).value as int,
            (v[j]->1).value as int,
        )
    &&& forall|x: int, y: int|
        0 <= x < m && 0 <= y < m && pair_before(x, y, xb, yb) && on_curve(
            #[trigger] affine(x, y),
            curve,
        ) ==> exists|i: int| 1 <= i < v.len() && #[trigger] v[i] == affine(x, y)
}

/// `v` holds the identity and then every affine point of the curve, each
/// once, ordered by `x` first and `y` second.
pub open spec fn lists_all_points(v: Seq<Point<PrimeElement>>, curve: Curve<PrimeElement>) -> bool {
    lists_points_before(v, curve, curve.field.modulus as int, 0)
}

/// All the points of the curve: the identity, then the affine points in the
/// order of `x` and then `y`, found by testing every pair of coordinates.
pub fn find_all_points(curve: &Curve<PrimeElement>) -> (points: Vec<Point<PrimeElement>>)
    requires
        curve.wf(),
    ensures
        lists_all_points(points@, *curve),
{
    let m = curve.field.modulus;
    let mut points: Vec<Point<PrimeElement>> = Vec::new();
    points.push(Point::Identity);
    let mut x: i64 = 0;
    while x < m
        invariant
            curve.wf(),
            m == curve.field.modulus,
            0 <= x <= m,
            lists_points_before(points@, *curve, x as int, 0),
        decreases m - x,
    {
        let mut y: i64 = 0;
        while y < m
            invariant
                curve.wf(),
                m == curve.field.modulus,
                0 <= x < m,
                0 <= y <= m,
                lists_points_before(points@, *curve, x as int, y as int),
            decreases m - y,
        {
            let candidate = Point::Affine(PrimeElement { value: x }, PrimeElement { value: y });
            if is_on_curve(&candidate, curve) {
                let ghost before = points@;
                points.push(candidate);
                proof {
                    assert(candidate == affine(x as int, y as int));
                    assert forall|px: int, py: int|
                        0 <= px < m && 0 <= py < m && pair_before(px, py, x as int, y + 1)
                            && on_curve(#[trigger] affine(px, py), *curve) implies exists|i: int|
                        1 <= i < points@.len() && #[trigger] points@[i] == affine(px, py) by {
                        if pair_before(px, py, x as int, y as int) {
                            let i = choose|i: int|
                                1 <= i < before.len() && #[trigger] before[i] == affine(px, py);
                            assert(points@[i] == affine(px, py));
                        } else {
                            assert(points@[before.len() as int] == affine(px, py));
                        }
                    }
                    assert(lists_points_before(points@, *curve, x as int, y + 1));
                }
            }
            y = y + 1;
        }
        x = x + 1;
    }
    points
}

/// Filtering one entry more keeps what was kept and adds the entry if it
/// passes.
proof fn lemma_filter_step<A>(s: Seq<A>, pred: spec_fn(A) -> bool, i: int)
    requires
        0 <= i < s.len(),
    ensures
        s.take(i + 1).filter(pred) == if pred(s[i]) {
            s.take(i).filter(pred).push(s[i])
        } else {
            s.take(i).filter(pred)
        },
{
    reveal_with_fuel(Seq::filter, 2);
    assert(s.take(i + 1).drop_last() =~= s.take(i));
    assert(s.take(i + 1).last() == s[i]);
}

/// Whether `p` is an affine point that returns to the identity within `r`
/// additions of itself.
pub open spec fn has_order_at_most(p: Point<PrimeElement>, r: nat, curve: Curve<PrimeElement>) -> bool {
    p is Affine && order_spec(p, r, curve) matches Ok(Some(_))
}

/// The order search of the affine point `p` meets an addition that is not
/// defined.
pub open spec fn order_fails(p: Point<PrimeElement>, cap: nat, curve: Curve<PrimeElement>) -> bool {
    p is Affine && order_spec(p, cap, curve) is Err
}

/// The points of the curve with order at most `r`: the identity, then the
/// affine points that return to the identity within `r` additions of
/// themselves, in the order of `find_all_points`.
///
/// Over a prime field no addition of points of the curve fails. Over
/// another modulus one may, and the first such failure is the result.
pub fn find_r_torsion_points(r: u64, curve: &Curve<PrimeElement>) -> (res: Result<
    Vec<Point<PrimeElement>>,
    ArithmeticError,
>)
    requires
        curve.wf(),
    ensures
        match res {
            Ok(v) => exists|all: Seq<Point<PrimeElement>>|
                {
                    &&& #[trigger] lists_all_points(all, *curve)
                    &&& forall|i: int| 0 <= i < all.len() ==> !order_fails(all[i], r as nat, *curve)
                    &&& v@ == seq![Point::<PrimeElement>::Identity] + all.filter(
                        |p: Point<PrimeElement>| has_order_at_most(p, r as nat, *curve),
                    )
                },
            Err(e) => exists|all: Seq<Point<PrimeElement>>, i: int|
                {
                    &&& #[trigger] lists_all_points(all, *curve)
                    &&& 0 <= i < all.len()
                    &&& order_fails(#[trigger] all[i], r as nat, *curve)
                    &&& order_spec(all[i], r as nat, *curve) == Err::<Option<nat>, ArithmeticError>(e)
                    &&& forall|j: int| 0 <= j < i ==> !order_fails(all[j], r as nat, *curve)
                },
        },
{
    let all = find_all_points(curve);
    let mut torsion: Vec<Point<PrimeElement>> = Vec::new();
    torsion.push(Point::Identity);
    let ghost pred = |p: Point<PrimeElement>| has_order_at_most(p, r as nat, *curve);
    let mut i: usize = 0;
    assert(all@.take(0).filter(pred) =~= Seq::<Point<PrimeElement>>::empty());
    while i < all.len()
        invariant
            curve.wf(),
            0 <= i <= all.len(),
            lists_all_points(all@, *curve),
            pred == |p: Point<PrimeElement>| has_order_at_most(p, r as nat, *curve),
            forall|j: int| 0 <= j < i ==> !order_fails(all@[j], r as nat, *curve),
            torsion@ == seq![Point::<PrimeElement>::Identity] + all@.take(i as int).filter(pred),
        decreases all.len() - i,
    {
        let p = all[i];
        proof {
            lemma_filter_step(all@, pred, i as int);
        }
        if !p.is_identity() {
            assert(p.wf(*curve));
            match point_order(&p, r, curve) {
                Ok(Some(_)) => {
                    torsion.push(p);
                    assert(pred(p));
                    assert(torsion@ =~= seq![Point::<PrimeElement>::Identity] + all@.take(
                        i + 1,
                    ).filter(pred));
                },
                Ok(None) => {
                    assert(!pred(p));
                },
                Err(e) => {
                    assert(order_fails(all@[i as int], r as nat, *curve));
                    return Err(e);
                },
            }
        } else {
            assert(!pred(p));
        }
        i = i + 1;
    }
    assert(all@.take(i as int) =~= all@);
    Ok(torsion)
}

/// Whether `p` is an affine point whose order is exactly `n`.
pub open spec fn has_order(p: Point<PrimeElement>, n: nat, curve: Curve<PrimeElement>) -> bool {
    p is Affine && order_spec(p, n, curve) == Ok::<Option<nat>, ArithmeticError>(Some(n))
}

/// The generators among `points`: the affine points whose order is the
/// number of points given, in the order in which they were given. With all
/// the points of the curve given, these are the points that generate its
/// group.
///
/// The first failure of an addition during a search is the result.
pub fn find_generators(points: &Vec<Point<PrimeElement>>, curve: &Curve<PrimeElement>) -> (res: Result<
    Vec<Point<PrimeElement>>,
    ArithmeticError,
>)
    requires
        curve.wf(),
        forall|i: int| 0 <= i < points.len() ==> (#[trigger] points[i]).wf(*curve),
    ensures
        match res {
            Ok(v) => {
                &&& forall|i: int|
                    0 <= i < points.len() ==> !order_fails(
                        #[trigger] points[i],
                        points.len() as nat,
                        *curve,
                    )
                &&& v@ == points@.filter(
                    |p: Point<PrimeElement>| has_order(p, points.len() as nat, *curve),
                )
            },
            Err(e) => exists|i: int|
                {
                    &&& 0 <= i < points.len()
                    &&& order_fails(#[trigger] points[i], points.len() as nat, *curve)
                    &&& order_spec(points[i], points.len() as nat, *curve) == Err::<
                        Option<nat>,
                        ArithmeticError,
                    >(e)
                    &&& forall|j: int|
                        0 <= j < i ==> !order_fails(
                            #[trigger] points[j],
                            points.len() as nat,
                            *curve,
                        )
                },
        },
{
    let total: usize = points.len();
    let mut generators: Vec<Point<PrimeElement>> = Vec::new();
    let ghost pred = |p: Point<PrimeElement>| has_order(p, total as nat, *curve);
    let mut i: usize = 0;
    assert(points@.take(0).filter(pred) =~= Seq::<Point<PrimeElement>>::empty());
    while i < total
        invariant
            curve.wf(),
            total == points.len(),
            0 <= i <= total,
            forall|j: int| 0 <= j < points.len() ==> (#[trigger] points[j]).wf(*curve),
            pred == |p: Point<PrimeElement>| has_order(p, total as nat, *curve),
            forall|j: int| 0 <= j < i ==> !order_fails(#[trigger] points[j], total as nat, *curve),
            generators@ == points@.take(i as int).filter(pred),
        decreases total - i,
    {
        let p = points[i];
        proof {
            lemma_filter_step(points@, pred, i as int);
        }
        if !p.is_identity() {
            match point_order(&p, total as u64, curve) {
                Ok(Some(n)) => {
                    if n == total as u64 {
                        generators.push(p);
                        assert(pred(p));
                    } else {
                        assert(!pred(p));
                    }
                },
                Ok(None) => {
                    assert(!pred(p));
                },
                Err(e) => {
                    assert(order_fails(points[i as int], total as nat, *curve));
                    return Err(e);
                },
            }
        } else {
            assert(!pred(p));
        }
        i = i + 1;
    }
    assert(points@.take(i as int) =~= points@);
    Ok(generators)
}

} // verus!
