//! Multiples of a point.

use vstd::prelude::*;
use crate::curve::{add_spec, double, Curve, Point};
use crate::errors::ArithmeticError;
use crate::field::FieldElement;

verus! {

/// What double-and-add leads to from the partial sum `acc`, with `addend`
/// standing for the current power-of-two multiple and `k` for the bits of
/// the scalar that are still to be used, lowest first.
///
/// Each set bit adds the addend to the sum, in order of rising weight, and
/// the addend is doubled as long as bits remain. The first failing addition
/// or doubling is the result.
pub open spec fn double_and_add<F: FieldElement>(
    acc: Point<F>,
    addend: Point<F>,
    k: nat,
    curve: Curve<F>,
) -> Result<Point<F>, ArithmeticError>
    decreases k,
{
    if k == 0 {
        Ok(acc)
    } else {
        let stepped = if k % 2 == 1 {
            add_spec(acc, addend, curve)
        } else {
            Ok(acc)
        };
        match stepped {
            Err(e) => Err(e),
            Ok(sum) => if k / 2 == 0 {
                Ok(sum)
            } else {
                match add_spec(addend, addend, curve) {
                    Err(e) => Err(e),
                    Ok(doubled) => double_and_add(sum, doubled, k / 2, curve),
                }
            },
        }
    }
}

/// The multiple `k * P` as double-and-add computes it from the identity.
pub open spec fn scalar_mul_spec<F: FieldElement>(p: Point<F>, k: nat, curve: Curve<F>) -> Result<
    Point<F>,
    ArithmeticError,
> {
    double_and_add(Point::Identity, p, k, curve)
}

/// The sum of `k` copies of `P`, added one at a time from the identity.
pub open spec fn repeated_add<F: FieldElement>(p: Point<F>, k: nat, curve: Curve<F>) -> Result<
    Point<F>,
    ArithmeticError,
>
    decreases k,
{
    if k == 0 {
        Ok(Point::Identity)
    } else {
        match repeated_add(p, (k - 1) as nat, curve) {
            Ok(sum) => add_spec(sum, p, curve),
            Err(e) => Err(e),
        }
    }
}

/// Multiplies a point by a scalar with double-and-add, in a number of group
/// operations proportional to the length of `k`.
pub fn scalar_mul<F: FieldElement>(point: &Point<F>, k: u64, curve: &Curve<F>) -> (r: Result<
    Point<F>,
    ArithmeticError,
>)
    requires
        curve.wf(),
        point.wf(*curve),
    ensures
        r == scalar_mul_spec(*point, k as nat, *curve),
        r matches Ok(v) ==> v.wf(*curve),
        k == 0 ==> r == Ok::<Point<F>, ArithmeticError>(Point::Identity),
{
    let mut result: Point<F> = Point::Identity;
    let mut addend: Point<F> = *point;
    let mut n: u64 = k;
    while n > 0
        invariant
            curve.wf(),
            result.wf(*curve),
            addend.wf(*curve),
            double_and_add(result, addend, n as nat, *curve) == scalar_mul_spec(
                *point,
                k as nat,
                *curve,
            ),
        decreases n,
    {
        if n % 2 == 1 {
            match crate::curve::add(&result, &addend, curve) {
                Ok(sum) => {
                    result = sum;
                },
                Err(e) => {
                    return Err(e);
                },
            }
        }
        n = n / 2;
        if n > 0 {
            match double(&addend, curve) {
                Ok(doubled) => {
                    addend = doubled;
                },
                Err(e) => {
                    return Err(e);
                },
            }
        }
    }
    Ok(result)
}

/// The multiples of `p` up to the `k`-th add like their indices:
/// `i*p + j*p = (i + j)*p` whenever `i + j <= k`, all of them defined.
/// Associativity of the group law makes this true of every point and `k`.
pub open spec fn multiples_add<F: FieldElement>(p: Point<F>, k: nat, curve: Curve<F>) -> bool {
    forall|i: nat, j: nat| i + j <= k ==> #[trigger] adds_at(p, i, j, curve)
}

/// The `i`-th and the `j`-th multiple of `p` are defined, and so is their
/// sum, which is the multiple with the index `i + j`.
pub open spec fn adds_at<F: FieldElement>(p: Point<F>, i: nat, j: nat, curve: Curve<F>) -> bool {
    &&& repeated_add(p, i, curve) matches Ok(a)
    &&& repeated_add(p, j, curve) matches Ok(b)
    &&& repeated_add(p, i + j, curve) is Ok
    &&& add_spec(a, b, curve) == repeated_add(p, i + j, curve)
}

/// Double-and-add from the partial sum `c * p` with the addend `w * p`
/// leads to `(c + w * n) * p`, where the multiples up to there add like
/// their indices.
proof fn lemma_double_and_add<F: FieldElement>(
    p: Point<F>,
    c: nat,
    w: nat,
    n: nat,
    k: nat,
    curve: Curve<F>,
)
    requires
        multiples_add(p, k, curve),
        c + w * n <= k,
        w >= 1,
        c < w || n == 0,
    ensures
        double_and_add(
            repeated_add(p, c, curve)->Ok_0,
            repeated_add(p, w, curve)->Ok_0,
            n,
            curve,
        ) == repeated_add(p, c + w * n, curve),
    decreases n,
{
    let acc = repeated_add(p, c, curve);
    let addend = repeated_add(p, w, curve);
    assert(adds_at(p, c, 0, curve));
    if n == 0 {
        assert(w * 0 == 0) by (nonlinear_arith);
    } else {
        let bit: nat = n % 2;
        let half: nat = n / 2;
        assert(w * n == w * bit + (2 * w) * half) by (nonlinear_arith)
            requires
                n == 2 * half + bit,
        ;
        assert(w * bit <= w * n && w <= w * n) by (nonlinear_arith)
            requires
                n >= 1,
                bit <= n,
                w >= 1,
        ;
        assert(w * bit == if bit == 1 { w } else { 0 }) by (nonlinear_arith)
            requires
                bit == 0 || bit == 1,
        ;
        let c2: nat = c + w * bit;
        assert(adds_at(p, w, 0, curve));
        if bit == 1 {
            assert(adds_at(p, c, w, curve));
        }
        if half == 0 {
            assert((2 * w) * 0 == 0) by (nonlinear_arith);
        } else {
            assert((2 * w) * half >= 2 * w) by (nonlinear_arith)
                requires
                    half >= 1,
                    w >= 1,
            ;
            assert(adds_at(p, w, w, curve));
            lemma_double_and_add(p, c2, 2 * w, half, k, curve);
        }
    }
}

/// Double-and-add computes the `k`-th multiple: where the multiples of `p`
/// up to the `k`-th add like their indices, `scalar_mul` gives the sum of
/// `k` copies of `p`.
pub proof fn lemma_scalar_mul_is_repeated_add<F: FieldElement>(p: Point<F>, k: nat, curve: Curve<F>)
    requires
        multiples_add(p, k, curve),
    ensures
        scalar_mul_spec(p, k, curve) == repeated_add(p, k, curve),
{
    reveal_with_fuel(repeated_add, 2);
    assert(repeated_add(p, 0, curve) == Ok::<Point<F>, ArithmeticError>(Point::Identity));
    assert(repeated_add(p, 1, curve) == Ok::<Point<F>, ArithmeticError>(p));
    if k == 0 {
    } else {
        assert(1 * k == k) by (nonlinear_arith);
        lemma_double_and_add(p, 0, 1, k, k, curve);
    }
}

} // verus!
