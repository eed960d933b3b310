//! Quadratic extensions: the values `a + b*t` with `t^2 = c` over the
//! integers modulo `p`.

use vstd::prelude::*;
use vstd::arithmetic::div_mod::*;
use vstd::arithmetic::mul::*;
use crate::errors::ArithmeticError;
use crate::field::FieldElement;
use crate::modular::{mod_add, mod_inverse, mod_mul, mod_pos, mod_sub};
use crate::number_theory::{
    inverse_of, invertible, is_inverse, lemma_add_congruent, lemma_inverse_of,
    lemma_mul_congruent, lemma_sub_congruent,
};

verus! {

/// The first coefficient of `(a1 + b1*t) * (a2 + b2*t)` with `t^2 = c`,
/// reduced modulo `p`.
pub open spec fn quad_mul_a(a1: int, b1: int, a2: int, b2: int, c: int, p: int) -> int {
    (a1 * a2 + c * (b1 * b2)) % p
}

/// The coefficient of `t` in `(a1 + b1*t) * (a2 + b2*t)`, reduced modulo `p`.
pub open spec fn quad_mul_b(a1: int, b1: int, a2: int, b2: int, p: int) -> int {
    (a1 * b2 + a2 * b1) % p
}

/// The norm of `a + b*t`: `a^2 - c*b^2`, reduced modulo `p`.
pub open spec fn quad_norm(a: int, b: int, c: int, p: int) -> int {
    (a * a - c * (b * b)) % p
}

/// The parameters of a quadratic extension of the integers modulo `modulus`.
#[derive(Clone, Copy, Debug, PartialEq, Eq, Structural)]
pub struct QuadraticField {
    /// The modulus of the base field; positive.
    pub modulus: i64,
    /// The value `c` of `t^2`, reduced; a non-residue where the ring is to be
    /// a field.
    pub non_residue: i64,
}

/// The value `a + b*t`, with both coefficients reduced.
#[derive(Clone, Copy, Debug, PartialEq, Eq, Structural)]
pub struct QuadraticElement {
    /// The constant coefficient.
    pub a: i64,
    /// The coefficient of `t`.
    pub b: i64,
}

impl QuadraticField {
    /// The extension of the integers modulo `modulus` by a root of
    /// `t^2 = non_residue`, or `UnsupportedModulus` where the modulus is not
    /// positive.
    pub fn new(modulus: i64, non_residue: i64) -> (r: Result<QuadraticField, ArithmeticError>)
        ensures
            match r {
                Ok(f) => {
                    &&& modulus > 0
                    &&& f.modulus == modulus
                    &&& f.non_residue == non_residue as int % modulus as int
                    &&& QuadraticElement::field_wf(f)
                },
                Err(e) => modulus <= 0 && e == ArithmeticError::UnsupportedModulus,
            },
    {
        if modulus <= 0 {
            Err(ArithmeticError::UnsupportedModulus)
        } else {
            Ok(QuadraticField { modulus, non_residue: mod_pos(non_residue, modulus) })
        }
    }
}

impl QuadraticElement {
    /// The value `a + b*t` in the field `f`, with its coefficients reduced.
    pub fn new(a: i64, b: i64, f: &QuadraticField) -> (r: QuadraticElement)
        requires
            f.modulus > 0,
        ensures
            r.a == a as int % f.modulus as int,
            r.b == b as int % f.modulus as int,
            r.wf(*f),
    {
        QuadraticElement { a: mod_pos(a, f.modulus), b: mod_pos(b, f.modulus) }
    }

    /// The norm `a^2 - c*b^2`.
    pub open spec fn norm_spec(self, f: QuadraticField) -> int {
        quad_norm(self.a as int, self.b as int, f.non_residue as int, f.modulus as int)
    }

    /// Computes the norm.
    pub fn norm(self, f: &QuadraticField) -> (r: i64)
        requires
            Self::field_wf(*f),
            self.wf(*f),
        ensures
            r == self.norm_spec(*f),
            0 <= r < f.modulus,
    {
        let p = f.modulus;
        let aa = mod_mul(self.a, self.a, p);
        let bb = mod_mul(self.b, self.b, p);
        let cbb = mod_mul(f.non_residue, bb, p);
        proof {
            let (a, b, c, m) = (self.a as int, self.b as int, f.non_residue as int, p as int);
            lemma_mod_twice(b * b, m);
            lemma_mod_twice(a * a, m);
            lemma_mul_congruent(c, c, bb as int, b * b, m);
            lemma_mod_twice(c * (b * b), m);
            lemma_sub_congruent(aa as int, a * a, cbb as int, c * (b * b), m);
        }
        mod_sub(aa, cbb, p)
    }
}

/// Sums of products respect congruence in the first factors.
proof fn lemma_combine(x: int, x0: int, u: int, y: int, y0: int, v: int, m: int)
    requires
        m > 0,
        x % m == x0 % m,
        y % m == y0 % m,
    ensures
        (x * u + y * v) % m == (x0 * u + y0 * v) % m,
{
    lemma_mul_congruent(x, x0, u, u, m);
    lemma_mul_congruent(y, y0, v, v, m);
    lemma_add_congruent(x * u, x0 * u, y * v, y0 * v, m);
}

/// The product in the extension is associative.
proof fn lemma_quad_mul_associative(
    a1: int,
    b1: int,
    a2: int,
    b2: int,
    a3: int,
    b3: int,
    c: int,
    p: int,
)
    requires
        p > 0,
    ensures
        quad_mul_a(quad_mul_a(a1, b1, a2, b2, c, p), quad_mul_b(a1, b1, a2, b2, p), a3, b3, c, p)
            == quad_mul_a(
            a1,
            b1,
            quad_mul_a(a2, b2, a3, b3, c, p),
            quad_mul_b(a2, b2, a3, b3, p),
            c,
            p,
        ),
        quad_mul_b(quad_mul_a(a1, b1, a2, b2, c, p), quad_mul_b(a1, b1, a2, b2, p), a3, b3, p)
            == quad_mul_b(
            a1,
            b1,
            quad_mul_a(a2, b2, a3, b3, c, p),
            quad_mul_b(a2, b2, a3, b3, p),
            p,
        ),
{
    let l_a0 = a1 * a2 + c * (b1 * b2);
    let l_b0 = a1 * b2 + a2 * b1;
    let r_a0 = a2 * a3 + c * (b2 * b3);
    let r_b0 = a2 * b3 + a3 * b2;
    let (l_a, l_b, r_a, r_b) = (l_a0 % p, l_b0 % p, r_a0 % p, r_b0 % p);
    lemma_mod_twice(l_a0, p);
    lemma_mod_twice(l_b0, p);
    lemma_mod_twice(r_a0, p);
    lemma_mod_twice(r_b0, p);
    // first coefficient
    lemma_combine(l_a, l_a0, a3, l_b, l_b0, c * b3, p);
    lemma_combine(r_a, r_a0, a1, r_b, r_b0, c * b1, p);
    assert(l_a * a3 + c * (l_b * b3) == l_a * a3 + l_b * (c * b3)) by (nonlinear_arith);
    assert(a1 * r_a + c * (b1 * r_b) == r_a * a1 + r_b * (c * b1)) by (nonlinear_arith);
    assert(l_a0 * a3 + l_b0 * (c * b3) == r_a0 * a1 + r_b0 * (c * b1)) by {
        lemma_mul_is_distributive_add_other_way(a3, a1 * a2, c * (b1 * b2));
        lemma_mul_is_distributive_add_other_way(c * b3, a1 * b2, a2 * b1);
        lemma_mul_is_distributive_add_other_way(a1, a2 * a3, c * (b2 * b3));
        lemma_mul_is_distributive_add_other_way(c * b1, a2 * b3, a3 * b2);
        assert((a1 * a2) * a3 == (a2 * a3) * a1) by (nonlinear_arith);
        assert((c * (b1 * b2)) * a3 == (a3 * b2) * (c * b1)) by (nonlinear_arith);
        assert((a1 * b2) * (c * b3) == (c * (b2 * b3)) * a1) by (nonlinear_arith);
        assert((a2 * b1) * (c * b3) == (a2 * b3) * (c * b1)) by (nonlinear_arith);
    }
    // coefficient of t
    lemma_combine(l_a, l_a0, b3, l_b, l_b0, a3, p);
    lemma_combine(r_b, r_b0, a1, r_a, r_a0, b1, p);
    assert(l_a * b3 + a3 * l_b == l_a * b3 + l_b * a3) by (nonlinear_arith);
    assert(a1 * r_b + r_a * b1 == r_b * a1 + r_a * b1) by (nonlinear_arith);
    assert(l_a0 * b3 + l_b0 * a3 == r_b0 * a1 + r_a0 * b1) by {
        lemma_mul_is_distributive_add_other_way(b3, a1 * a2, c * (b1 * b2));
        lemma_mul_is_distributive_add_other_way(a3, a1 * b2, a2 * b1);
        lemma_mul_is_distributive_add_other_way(a1, a2 * b3, a3 * b2);
        lemma_mul_is_distributive_add_other_way(b1, a2 * a3, c * (b2 * b3));
        assert((a1 * a2) * b3 == (a2 * b3) * a1) by (nonlinear_arith);
        assert((c * (b1 * b2)) * b3 == (c * (b2 * b3)) * b1) by (nonlinear_arith);
        assert((a1 * b2) * a3 == (a3 * b2) * a1) by (nonlinear_arith);
        assert((a2 * b1) * a3 == (a2 * a3) * b1) by (nonlinear_arith);
    }
}

/// The product in the extension distributes over the sum.
proof fn lemma_quad_mul_distributive(
    a1: int,
    b1: int,
    a2: int,
    b2: int,
    a3: int,
    b3: int,
    c: int,
    p: int,
)
    requires
        p > 0,
    ensures
        quad_mul_a(a1, b1, (a2 + a3) % p, (b2 + b3) % p, c, p) == (quad_mul_a(
            a1,
            b1,
            a2,
            b2,
            c,
            p,
        ) + quad_mul_a(a1, b1, a3, b3, c, p)) % p,
        quad_mul_b(a1, b1, (a2 + a3) % p, (b2 + b3) % p, p) == (quad_mul_b(a1, b1, a2, b2, p)
            + quad_mul_b(a1, b1, a3, b3, p)) % p,
{
    let (sa, sb) = ((a2 + a3) % p, (b2 + b3) % p);
    lemma_mod_twice(a2 + a3, p);
    lemma_mod_twice(b2 + b3, p);
    // first coefficient
    lemma_combine(sa, a2 + a3, a1, sb, b2 + b3, c * b1, p);
    assert(a1 * sa + c * (b1 * sb) == sa * a1 + sb * (c * b1)) by (nonlinear_arith);
    assert((a2 + a3) * a1 + (b2 + b3) * (c * b1) == (a1 * a2 + c * (b1 * b2)) + (a1 * a3 + c * (b1
        * b3))) by (nonlinear_arith);
    lemma_add_mod_noop(a1 * a2 + c * (b1 * b2), a1 * a3 + c * (b1 * b3), p);
    // coefficient of t
    lemma_combine(sb, b2 + b3, a1, sa, a2 + a3, b1, p);
    assert(a1 * sb + sa * b1 == sb * a1 + sa * b1) by (nonlinear_arith);
    assert((b2 + b3) * a1 + (a2 + a3) * b1 == (a1 * b2 + a2 * b1) + (a1 * b3 + a3 * b1))
        by (nonlinear_arith);
    lemma_add_mod_noop(a1 * b2 + a2 * b1, a1 * b3 + a3 * b1, p);
}

/// The norm of a product is the product of the norms.
proof fn lemma_quad_norm_multiplicative(a1: int, b1: int, a2: int, b2: int, c: int, p: int)
    requires
        p > 0,
    ensures
        quad_norm(quad_mul_a(a1, b1, a2, b2, c, p), quad_mul_b(a1, b1, a2, b2, p), c, p) == (
        quad_norm(a1, b1, c, p) * quad_norm(a2, b2, c, p)) % p,
{
    let a0 = a1 * a2 + c * (b1 * b2);
    let b0 = a1 * b2 + a2 * b1;
    let (a, b) = (a0 % p, b0 % p);
    lemma_mod_twice(a0, p);
    lemma_mod_twice(b0, p);
    lemma_mul_congruent(a, a0, a, a0, p);
    lemma_mul_congruent(b, b0, b, b0, p);
    lemma_mul_congruent(c, c, b * b, b0 * b0, p);
    lemma_sub_congruent(a * a, a0 * a0, c * (b * b), c * (b0 * b0), p);
    let n1 = a1 * a1 - c * (b1 * b1);
    let n2 = a2 * a2 - c * (b2 * b2);
    assert(a0 * a0 - c * (b0 * b0) == n1 * n2) by {
        let (pp, qq, rr, ss) = (a1 * a2, b1 * b2, a1 * b2, a2 * b1);
        let (sa, sb, sc, sd) = (a1 * a1, b1 * b1, a2 * a2, b2 * b2);
        assert(a0 * a0 == pp * pp + 2 * (c * (pp * qq)) + c * (c * (qq * qq)))
            by (nonlinear_arith)
            requires
                a0 == pp + c * qq,
        ;
        assert(c * (b0 * b0) == c * (rr * rr) + 2 * (c * (rr * ss)) + c * (ss * ss))
            by (nonlinear_arith)
            requires
                b0 == rr + ss,
        ;
        let (cb, cd) = (c * sb, c * sd);
        assert(n1 * n2 == sa * sc - sa * cd - cb * sc + cb * cd) by (nonlinear_arith)
            requires
                n1 == sa - cb,
                n2 == sc - cd,
        ;
        assert(sa * cd == c * (sa * sd)) by (nonlinear_arith)
            requires
                cd == c * sd,
        ;
        assert(cb * sc == c * (sb * sc)) by (nonlinear_arith)
            requires
                cb == c * sb,
        ;
        assert(cb * cd == c * (c * (sb * sd))) by (nonlinear_arith)
            requires
                cb == c * sb,
                cd == c * sd,
        ;
        assert(pp * qq == rr * ss) by (nonlinear_arith)
            requires
                pp == a1 * a2,
                qq == b1 * b2,
                rr == a1 * b2,
                ss == a2 * b1,
        ;
        assert(pp * pp == sa * sc) by (nonlinear_arith)
            requires
                pp == a1 * a2,
                sa == a1 * a1,
                sc == a2 * a2,
        ;
        assert(qq * qq == sb * sd) by (nonlinear_arith)
            requires
                qq == b1 * b2,
                sb == b1 * b1,
                sd == b2 * b2,
        ;
        assert(rr * rr == sa * sd) by (nonlinear_arith)
            requires
                rr == a1 * b2,
                sa == a1 * a1,
                sd == b2 * b2,
        ;
        assert(ss * ss == sb * sc) by (nonlinear_arith)
            requires
                ss == a2 * b1,
                sb == b1 * b1,
                sc == a2 * a2,
        ;
    }
    lemma_mul_mod_noop(n1, n2, p);
}

/// A value times its conjugate scaled by the inverse of its norm is one.
proof fn lemma_quad_inverse(a: int, b: int, c: int, u: int, p: int)
    requires
        p > 0,
        is_inverse(quad_norm(a, b, c, p), u, p),
    ensures
        quad_mul_a(a, b, (a * u) % p, (-(b * u)) % p, c, p) == 1int % p,
        quad_mul_b(a, b, (a * u) % p, (-(b * u)) % p, p) == 0,
{
    let (ia, ib) = ((a * u) % p, (-(b * u)) % p);
    let n0 = a * a - c * (b * b);
    lemma_mod_twice(a * u, p);
    lemma_mod_twice(-(b * u), p);
    // first coefficient: a * (a*u) + c * (b * -(b*u)) = (a^2 - c*b^2) * u
    lemma_combine(ia, a * u, a, ib, -(b * u), c * b, p);
    assert(a * ia + c * (b * ib) == ia * a + ib * (c * b)) by (nonlinear_arith);
    assert((a * u) * a + (-(b * u)) * (c * b) == n0 * u) by (nonlinear_arith)
        requires
            n0 == a * a - c * (b * b),
    ;
    lemma_mul_mod_noop_left(n0, u, p);
    // coefficient of t: a * -(b*u) + (a*u) * b = 0
    lemma_combine(ib, -(b * u), a, ia, a * u, b, p);
    assert(a * ib + ia * b == ib * a + ia * b) by (nonlinear_arith);
    assert((-(b * u)) * a + (a * u) * b == 0) by (nonlinear_arith);
    lemma_small_mod(0, p as nat);
}

impl FieldElement for QuadraticElement {
    type Field = QuadraticField;

    open spec fn field_wf(f: QuadraticField) -> bool {
        f.modulus > 0 && 0 <= f.non_residue < f.modulus
    }

    open spec fn wf(self, f: QuadraticField) -> bool {
        0 <= self.a < f.modulus && 0 <= self.b < f.modulus
    }

    open spec fn zero_spec(f: QuadraticField) -> QuadraticElement {
        QuadraticElement { a: 0, b: 0 }
    }

    open spec fn one_spec(f: QuadraticField) -> QuadraticElement {
        QuadraticElement { a: (1int % f.modulus as int) as i64, b: 0 }
    }

    open spec fn add_spec(self, rhs: QuadraticElement, f: QuadraticField) -> QuadraticElement {
        QuadraticElement {
            a: ((self.a + rhs.a) % f.modulus as int) as i64,
            b: ((self.b + rhs.b) % f.modulus as int) as i64,
        }
    }

    open spec fn neg_spec(self, f: QuadraticField) -> QuadraticElement {
        QuadraticElement {
            a: ((-self.a) % f.modulus as int) as i64,
            b: ((-self.b) % f.modulus as int) as i64,
        }
    }

    open spec fn sub_spec(self, rhs: QuadraticElement, f: QuadraticField) -> QuadraticElement {
        QuadraticElement {
            a: ((self.a - rhs.a) % f.modulus as int) as i64,
            b: ((self.b - rhs.b) % f.modulus as int) as i64,
        }
    }

    open spec fn mul_spec(self, rhs: QuadraticElement, f: QuadraticField) -> QuadraticElement {
        QuadraticElement {
            a: quad_mul_a(
                self.a as int,
                self.b as int,
                rhs.a as int,
                rhs.b as int,
                f.non_residue as int,
                f.modulus as int,
            ) as i64,
            b: quad_mul_b(
                self.a as int,
                self.b as int,
                rhs.a as int,
                rhs.b as int,
                f.modulus as int,
            ) as i64,
        }
    }

    open spec fn invertible(self, f: QuadraticField) -> bool {
        invertible(self.norm_spec(f), f.modulus as int)
    }

    open spec fn inverse_spec(self, f: QuadraticField) -> QuadraticElement {
        let u = inverse_of(self.norm_spec(f), f.modulus as int);
        QuadraticElement {
            a: ((self.a * u) % f.modulus as int) as i64,
            b: ((-(self.b * u)) % f.modulus as int) as i64,
        }
    }

    fn zero(f: &QuadraticField) -> (r: QuadraticElement) {
        QuadraticElement { a: 0, b: 0 }
    }

    fn one(f: &QuadraticField) -> (r: QuadraticElement) {
        QuadraticElement { a: mod_pos(1, f.modulus), b: 0 }
    }

    fn add(self, rhs: QuadraticElement, f: &QuadraticField) -> (r: QuadraticElement) {
        QuadraticElement {
            a: mod_add(self.a, rhs.a, f.modulus),
            b: mod_add(self.b, rhs.b, f.modulus),
        }
    }

    fn neg(self, f: &QuadraticField) -> (r: QuadraticElement) {
        QuadraticElement { a: mod_sub(0, self.a, f.modulus), b: mod_sub(0, self.b, f.modulus) }
    }

    fn sub(self, rhs: QuadraticElement, f: &QuadraticField) -> (r: QuadraticElement) {
        QuadraticElement {
            a: mod_sub(self.a, rhs.a, f.modulus),
            b: mod_sub(self.b, rhs.b, f.modulus),
        }
    }

    fn mul(self, rhs: QuadraticElement, f: &QuadraticField) -> (r: QuadraticElement) {
        let p = f.modulus;
        let aa = mod_mul(self.a, rhs.a, p);
        let bb = mod_mul(self.b, rhs.b, p);
        let cbb = mod_mul(f.non_residue, bb, p);
        let ab = mod_mul(self.a, rhs.b, p);
        let ba = mod_mul(rhs.a, self.b, p);
        proof {
            let m = p as int;
            let c = f.non_residue as int;
            let (a1, b1, a2, b2) = (self.a as int, self.b as int, rhs.a as int, rhs.b as int);
            lemma_mod_twice(a1 * a2, m);
            lemma_mod_twice(b1 * b2, m);
            lemma_mod_twice(a1 * b2, m);
            lemma_mod_twice(a2 * b1, m);
            lemma_mul_congruent(c, c, bb as int, b1 * b2, m);
            lemma_mod_twice(c * (b1 * b2), m);
            lemma_add_congruent(aa as int, a1 * a2, cbb as int, c * (b1 * b2), m);
            lemma_add_congruent(ab as int, a1 * b2, ba as int, a2 * b1, m);
        }
        QuadraticElement { a: mod_add(aa, cbb, p), b: mod_add(ab, ba, p) }
    }

    fn inverse(self, f: &QuadraticField) -> (r: Result<QuadraticElement, ArithmeticError>) {
        let p = f.modulus;
        let n = self.norm(f);
        match mod_inverse(n, p) {
            Ok(u) => {
                let bu = mod_mul(self.b, u, p);
                proof {
                    lemma_mod_bound(self.a * u, p as int);
                    lemma_mod_bound(-(self.b * u), p as int);
                    lemma_mod_twice(self.b * u, p as int);
                    lemma_sub_congruent(0, 0, bu as int, self.b * u, p as int);
                }
                Ok(QuadraticElement { a: mod_mul(self.a, u, p), b: mod_sub(0, bu, p) })
            },
            Err(e) => Err(e),
        }
    }

    fn equals(self, rhs: QuadraticElement) -> (r: bool) {
        self.a == rhs.a && self.b == rhs.b
    }

    fn is_zero(self, f: &QuadraticField) -> (r: bool) {
        self.a == 0 && self.b == 0
    }

    proof fn lemma_identities_closed(f: QuadraticField) {
        lemma_mod_bound(1, f.modulus as int);
    }

    proof fn lemma_closed(x: QuadraticElement, y: QuadraticElement, f: QuadraticField) {
        let m = f.modulus as int;
        let c = f.non_residue as int;
        lemma_mod_bound(x.a + y.a, m);
        lemma_mod_bound(x.b + y.b, m);
        lemma_mod_bound(x.a - y.a, m);
        lemma_mod_bound(x.b - y.b, m);
        lemma_mod_bound(-x.a, m);
        lemma_mod_bound(-x.b, m);
        lemma_mod_bound(x.a * y.a + c * (x.b * y.b), m);
        lemma_mod_bound(x.a * y.b + y.a * x.b, m);
        let u = inverse_of(x.norm_spec(f), m);
        lemma_mod_bound(x.a * u, m);
        lemma_mod_bound(-(x.b * u), m);
    }

    proof fn lemma_additive_group(
        x: QuadraticElement,
        y: QuadraticElement,
        z: QuadraticElement,
        f: QuadraticField,
    ) {
        let m = f.modulus as int;
        lemma_small_mod(0, m as nat);
        lemma_add_laws(x.a as int, y.a as int, z.a as int, m);
        lemma_add_laws(x.b as int, y.b as int, z.b as int, m);
    }

    proof fn lemma_multiplicative(
        x: QuadraticElement,
        y: QuadraticElement,
        z: QuadraticElement,
        f: QuadraticField,
    ) {
        let m = f.modulus as int;
        let c = f.non_residue as int;
        let (a1, b1, a2, b2, a3, b3) = (
            x.a as int,
            x.b as int,
            y.a as int,
            y.b as int,
            z.a as int,
            z.b as int,
        );
        Self::lemma_closed(x, y, f);
        Self::lemma_closed(y, z, f);
        Self::lemma_closed(x, z, f);
        // commutativity
        assert(a1 * a2 + c * (b1 * b2) == a2 * a1 + c * (b2 * b1)) by (nonlinear_arith);
        assert(a1 * b2 + a2 * b1 == a2 * b1 + a1 * b2);
        // associativity
        lemma_quad_mul_associative(a1, b1, a2, b2, a3, b3, c, m);
        // identity
        let one = 1int % m;
        lemma_mod_bound(1, m);
        lemma_mod_twice(1, m);
        lemma_combine(one, 1, a1, 0, 0, c * b1, m);
        assert(a1 * one + c * (b1 * 0) == one * a1 + 0 * (c * b1)) by (nonlinear_arith);
        assert(1 * a1 + 0 * (c * b1) == a1) by (nonlinear_arith);
        lemma_combine(one, 1, b1, 0, 0, a1, m);
        assert(a1 * 0 + one * b1 == one * b1 + 0 * a1) by (nonlinear_arith);
        assert(1 * b1 + 0 * a1 == b1) by (nonlinear_arith);
        lemma_small_mod(a1 as nat, m as nat);
        lemma_small_mod(b1 as nat, m as nat);
        // distributivity
        lemma_quad_mul_distributive(a1, b1, a2, b2, a3, b3, c, m);
    }

    proof fn lemma_inverse(x: QuadraticElement, y: QuadraticElement, f: QuadraticField) {
        let m = f.modulus as int;
        let c = f.non_residue as int;
        let one = Self::one_spec(f);
        Self::lemma_identities_closed(f);
        lemma_mod_bound(1, m);
        if x.invertible(f) {
            let u = inverse_of(x.norm_spec(f), m);
            assert(is_inverse(x.norm_spec(f), u, m));
            lemma_quad_inverse(x.a as int, x.b as int, c, u, m);
            lemma_mod_bound(x.a * u, m);
            lemma_mod_bound(-(x.b * u), m);
        }
        if x.mul_spec(y, f) == one {
            // the norms of x and y multiply to the norm of one, which is one
            Self::lemma_closed(x, y, f);
            lemma_quad_norm_multiplicative(x.a as int, x.b as int, y.a as int, y.b as int, c, m);
            assert(one.norm_spec(f) == 1int % m) by {
                let o = 1int % m;
                lemma_mod_twice(1, m);
                lemma_mul_congruent(o, 1, o, 1, m);
                assert(c * (0int * 0int) == 0) by (nonlinear_arith);
                lemma_mod_twice(1, m);
                assert(1int * 1int == 1);
            }
            let (nx, ny) = (x.norm_spec(f), y.norm_spec(f));
            lemma_mod_bound(y.a * y.a - c * (y.b * y.b), m);
            assert(is_inverse(nx, ny, m));
            lemma_inverse_of(nx, ny, m);
            // so x has an inverse v, and y = y * (x * v) = (y * x) * v = v
            let v = x.inverse_spec(f);
            lemma_quad_inverse(x.a as int, x.b as int, c, inverse_of(nx, m), m);
            lemma_mod_bound(x.a * inverse_of(nx, m), m);
            lemma_mod_bound(-(x.b * inverse_of(nx, m)), m);
            assert(v.wf(f));
            assert(x.mul_spec(v, f) == one);
            Self::lemma_multiplicative(y, x, v, f);
            Self::lemma_multiplicative(x, y, y, f);
            Self::lemma_multiplicative(y, one, one, f);
            Self::lemma_multiplicative(v, one, one, f);
            Self::lemma_multiplicative(one, v, v, f);
        }
    }
}

/// The laws of addition modulo `m`, on reduced values.
proof fn lemma_add_laws(a: int, b: int, c: int, m: int)
    requires
        m > 0,
        0 <= a < m,
        0 <= b < m,
        0 <= c < m,
    ensures
        (a + b) % m == (b + a) % m,
        ((a + b) % m + c) % m == (a + (b + c) % m) % m,
        (a + 0) % m == a,
        (a + (-a) % m) % m == 0,
        (a - b) % m == (a + (-b) % m) % m,
{
    lemma_small_mod(a as nat, m as nat);
    lemma_add_mod_noop_right(a, b + c, m);
    lemma_add_mod_noop_right(c, a + b, m);
    lemma_add_mod_noop_right(a, -a, m);
    lemma_small_mod(0, m as nat);
    lemma_add_mod_noop_right(a, -b, m);
}

} // verus!
