//! The order of a point, by adding it to itself until the identity comes.

use vstd::prelude::*;
use crate::curve::{add_spec, is_on_curve, on_curve, Curve, Point};
use crate::errors::ArithmeticError;
use crate::field::FieldElement;
use crate::scalar::repeated_add;

verus! {

/// The search for the order of `p` that has reached `current = k * p`
/// without meeting the identity, and may go on to `cap * p`.
pub open spec fn order_search<F: FieldElement>(
    p: Point<F>,
    current: Point<F>,
    k: nat,
    cap: nat,
    curve: Curve<F>,
) -> Result<Option<nat>, ArithmeticError>
    decreases cap - k,
{
    if current is Identity {
        Ok(Some(k))
    } else if k >= cap {
        Ok(None)
    } else {
        match add_spec(current, p, curve) {
            Ok(next) => order_search(p, next, k + 1, cap, curve),
            Err(e) => Err(e),
        }
    }
}

/// The order of `p` as far as `cap` additions show it: the least `k` in
/// `[1, cap]` with `k * p` the identity, `None` where there is none, and the
/// failure of the first addition that fails before the identity is met.
pub open spec fn order_spec<F: FieldElement>(p: Point<F>, cap: nat, curve: Curve<F>) -> Result<
    Option<nat>,
    ArithmeticError,
> {
    if cap == 0 {
        Ok(None)
    } else {
        order_search(p, p, 1, cap, curve)
    }
}

/// What the search says of the multiples: from `current = k * p`, with no
/// identity among the multiples before, the order found is the first `n`
/// with `n * p` the identity, `None` means that the multiples up to `cap`
/// are all defined and none is the identity, and a failure is that of the
/// first multiple that is not defined.
pub proof fn lemma_order_search<F: FieldElement>(
    p: Point<F>,
    current: Point<F>,
    k: nat,
    cap: nat,
    curve: Curve<F>,
)
    requires
        1 <= k <= cap,
        repeated_add(p, k, curve) == Ok::<Point<F>, ArithmeticError>(current),
        forall|j: nat|
            1 <= j < k ==> (#[trigger] repeated_add(p, j, curve) matches Ok(s) && s !is Identity),
    ensures
        match order_search(p, current, k, cap, curve) {
            Ok(Some(n)) => {
                &&& k <= n <= cap
                &&& repeated_add(p, n, curve) == Ok::<Point<F>, ArithmeticError>(Point::Identity)
                &&& forall|j: nat|
                    1 <= j < n ==> (#[trigger] repeated_add(p, j, curve) matches Ok(s)
                        && s !is Identity)
            },
            Ok(None) => forall|j: nat|
                1 <= j <= cap ==> (#[trigger] repeated_add(p, j, curve) matches Ok(s)
                    && s !is Identity),
            Err(e) => exists|n: nat|
                {
                    &&& k < n <= cap
                    &&& #[trigger] repeated_add(p, n, curve) == Err::<Point<F>, ArithmeticError>(e)
                    &&& forall|j: nat|
                        1 <= j < n ==> (#[trigger] repeated_add(p, j, curve) matches Ok(s)
                            && s !is Identity)
                },
        },
    decreases cap - k,
{
    if current is Identity {
    } else if k >= cap {
    } else {
        match add_spec(current, p, curve) {
            Ok(next) => {
                assert(repeated_add(p, k + 1, curve) == Ok::<Point<F>, ArithmeticError>(next));
                lemma_order_search(p, next, k + 1, cap, curve);
            },
            Err(e) => {
                assert(repeated_add(p, k + 1, curve) == Err::<Point<F>, ArithmeticError>(e));
            },
        }
    }
}

/// The order that `order_spec` gives is the order by repeated addition: the
/// least number of copies of `p` that add to the identity.
pub proof fn lemma_order_is_least_multiple<F: FieldElement>(p: Point<F>, cap: nat, curve: Curve<F>)
    ensures
        match order_spec(p, cap, curve) {
            Ok(Some(n)) => {
                &&& 1 <= n <= cap
                &&& repeated_add(p, n, curve) == Ok::<Point<F>, ArithmeticError>(Point::Identity)
                &&& forall|j: nat|
                    1 <= j < n ==> (#[trigger] repeated_add(p, j, curve) matches Ok(s)
                        && s !is Identity)
            },
            Ok(None) => forall|j: nat|
                1 <= j <= cap ==> (#[trigger] repeated_add(p, j, curve) matches Ok(s)
                    && s !is Identity),
            Err(e) => exists|n: nat|
                {
                    &&& 1 < n <= cap
                    &&& #[trigger] repeated_add(p, n, curve) == Err::<Point<F>, ArithmeticError>(e)
                    &&& forall|j: nat|
                        1 <= j < n ==> (#[trigger] repeated_add(p, j, curve) matches Ok(s)
                            && s !is Identity)
                },
        },
{
    if cap > 0 {
        reveal_with_fuel(repeated_add, 2);
        assert(repeated_add(p, 1, curve) == Ok::<Point<F>, ArithmeticError>(p));
        lemma_order_search(p, p, 1, cap, curve);
    }
}

/// The order of a point, found by adding it to itself at most `cap - 1`
/// times.
pub fn point_order<F: FieldElement>(point: &Point<F>, cap: u64, curve: &Curve<F>) -> (r: Result<
    Option<u64>,
    ArithmeticError,
>)
    requires
        curve.wf(),
        point.wf(*curve),
    ensures
        match r {
            Ok(Some(n)) => order_spec(*point, cap as nat, *curve) == Ok::<
                Option<nat>,
                ArithmeticError,
            >(Some(n as nat)),
            Ok(None) => order_spec(*point, cap as nat, *curve) == Ok::<
                Option<nat>,
                ArithmeticError,
            >(None),
            Err(e) => order_spec(*point, cap as nat, *curve) == Err::<Option<nat>, ArithmeticError>(
                e,
            ),
        },
{
    if cap == 0 {
        return Ok(None);
    }
    let mut current: Point<F> = *point;
    let mut k: u64 = 1;
    loop
        invariant
            curve.wf(),
            point.wf(*curve),
            current.wf(*curve),
            1 <= k <= cap,
            order_search(*point, current, k as nat, cap as nat, *curve) == order_spec(
                *point,
                cap as nat,
                *curve,
            ),
        decreases cap - k,
    {
        if current.is_identity() {
            return Ok(Some(k));
        }
        if k >= cap {
            return Ok(None);
        }
        match crate::curve::add(&current, point, curve) {
            Ok(next) => {
                current = next;
                k = k + 1;
            },
            Err(e) => {
                return Err(e);
            },
        }
    }
}

/// The order of a point of the curve, as `point_order` finds it; a point
/// that does not satisfy the curve equation is reported as `NotOnCurve`.
pub fn find_order<F: FieldElement>(point: &Point<F>, cap: u64, curve: &Curve<F>) -> (r: Result<
    Option<u64>,
    ArithmeticError,
>)
    requires
        curve.wf(),
        point.wf(*curve),
    ensures
        !on_curve(*point, *curve) ==> r == Err::<Option<u64>, ArithmeticError>(
            ArithmeticError::NotOnCurve,
        ),
        on_curve(*point, *curve) ==> match r {
            Ok(Some(n)) => order_spec(*point, cap as nat, *curve) == Ok::<
                Option<nat>,
                ArithmeticError,
            >(Some(n as nat)),
            Ok(None) => order_spec(*point, cap as nat, *curve) == Ok::<
                Option<nat>,
                ArithmeticError,
            >(None),
            Err(e) => order_spec(*point, cap as nat, *curve) == Err::<Option<nat>, ArithmeticError>(
                e,
            ),
        },
{
    if !is_on_curve(point, curve) {
        return Err(ArithmeticError::NotOnCurve);
    }
    point_order(point, cap, curve)
}

} // verus!
