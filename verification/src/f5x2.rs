//! The field with 25 elements: `a + b*t` over the integers modulo 5, with
//! `t^2 + 2 = 0`.

use vstd::prelude::*;
use vstd::arithmetic::div_mod::*;
use crate::errors::ArithmeticError;
use crate::field::FieldElement;
use crate::number_theory::{
    invertible, is_inverse, lemma_add_congruent, lemma_inverse_of, lemma_mul_congruent,
    lemma_sub_congruent,
};
use crate::quadratic_field::{quad_norm, QuadraticElement, QuadraticField};

verus! {

/// An element `a + b*t` of the field with 25 elements.
#[derive(Clone, Copy, Debug, PartialEq, Eq, Structural)]
pub struct F5x2 {
    /// The constant coefficient, below 5.
    pub a: u8,
    /// The coefficient of `t`, below 5.
    pub b: u8,
}

/// The parameters of the field with 25 elements: modulus 5 and `t^2 = 3`.
pub open spec fn f25() -> QuadraticField {
    QuadraticField { modulus: 5, non_residue: 3 }
}

impl F5x2 {
    /// Both coefficients are reduced modulo 5.
    pub open spec fn wf(self) -> bool {
        self.a < 5 && self.b < 5
    }

    /// The same value as an element of the quadratic extension with the
    /// parameters `f25()`.
    pub open spec fn element_spec(self) -> QuadraticElement {
        QuadraticElement { a: self.a as i64, b: self.b as i64 }
    }

    /// The parameters of this field, for use with the general arithmetic.
    pub fn field() -> (f: QuadraticField)
        ensures
            f == f25(),
            QuadraticElement::field_wf(f),
    {
        QuadraticField { modulus: 5, non_residue: 3 }
    }

    /// The same value as an element of the quadratic extension.
    pub fn element(self) -> (e: QuadraticElement)
        requires
            self.wf(),
        ensures
            e == self.element_spec(),
            e.wf(f25()),
    {
        QuadraticElement { a: self.a as i64, b: self.b as i64 }
    }

    /// The element `a + b*t`, with the coefficients reduced modulo 5.
    pub fn new(a: u8, b: u8) -> (r: F5x2)
        ensures
            r.a == a % 5,
            r.b == b % 5,
            r.wf(),
    {
        F5x2 { a: a % 5, b: b % 5 }
    }

    /// The sum, coefficient by coefficient.
    pub fn add(self, other: F5x2) -> (r: F5x2)
        requires
            self.wf(),
            other.wf(),
        ensures
            r.wf(),
            r.element_spec() == self.element_spec().add_spec(other.element_spec(), f25()),
    {
        F5x2 { a: (self.a + other.a) % 5, b: (self.b + other.b) % 5 }
    }

    /// The difference, coefficient by coefficient.
    pub fn sub(self, other: F5x2) -> (r: F5x2)
        requires
            self.wf(),
            other.wf(),
        ensures
            r.wf(),
            r.element_spec() == self.element_spec().sub_spec(other.element_spec(), f25()),
    {
        proof {
            lemma_mod_add_multiples_vanish(self.a - other.a, 5);
            lemma_mod_add_multiples_vanish(self.b - other.b, 5);
        }
        F5x2 { a: (self.a + 5 - other.a) % 5, b: (self.b + 5 - other.b) % 5 }
    }

    /// The product of the two polynomials, reduced with `t^2 = 3`.
    pub fn mul(self, other: F5x2) -> (r: F5x2)
        requires
            self.wf(),
            other.wf(),
        ensures
            r.wf(),
            r.element_spec() == self.element_spec().mul_spec(other.element_spec(), f25()),
    {
        let (a, b, c, d) = (self.a, self.b, other.a, other.b);
        assert(a * c <= 16 && b * d <= 16 && a * d <= 16 && b * c <= 16) by (nonlinear_arith)
            requires
                a < 5,
                b < 5,
                c < 5,
                d < 5,
        ;
        let ac: u8 = (a * c) % 5;
        let bd: u8 = (b * d) % 5;
        let ad_bc: u8 = (a * d + b * c) % 5;
        proof {
            let (ai, bi, ci, di) = (a as int, b as int, c as int, d as int);
            lemma_mod_twice(ai * ci, 5);
            lemma_mod_twice(bi * di, 5);
            lemma_mul_congruent(3, 3, bd as int, bi * di, 5);
            lemma_add_congruent(ac as int, ai * ci, 3 * bd, 3 * (bi * di), 5);
            lemma_mod_twice(ai * di + bi * ci, 5);
            assert(ai * di + bi * ci == ai * di + ci * bi) by (nonlinear_arith);
        }
        F5x2 { a: (ac + 3 * bd) % 5, b: ad_bc % 5 }
    }

    /// The smallest `i` in `[1, p)` with `x * i` congruent to 1 modulo `p`,
    /// found by trying each in turn; 1 where there is none.
    pub fn mod_inverse(x: u8, p: u8) -> (r: u8)
        ensures
            (exists|i: int| 1 <= i < p && #[trigger] ((x as int * i) % (p as int)) == 1) ==> {
                &&& 1 <= r < p
                &&& (x as int * r as int) % (p as int) == 1
                &&& forall|j: int| 1 <= j < r ==> #[trigger] ((x as int * j) % (p as int)) != 1
            },
            (forall|i: int| 1 <= i < p ==> #[trigger] ((x as int * i) % (p as int)) != 1) ==> r
                == 1,
    {
        let mut i: u8 = 1;
        while i < p
            invariant
                1 <= i,
                forall|j: int| 1 <= j < i ==> #[trigger] ((x as int * j) % (p as int)) != 1,
            decreases p - i,
        {
            assert(x as int * i as int <= 255 * 255) by (nonlinear_arith)
                requires
                    0 <= x <= 255,
                    0 <= i <= 255,
            ;
            if (x as u16 * i as u16) % (p as u16) == 1 {
                return i;
            }
            i = i + 1;
        }
        1
    }

    /// The inverse: the conjugate `a - b*t` divided by the norm
    /// `a^2 - 3*b^2`, or `NotInvertible` for zero, whose norm is zero.
    pub fn inverse(self) -> (r: Result<F5x2, ArithmeticError>)
        requires
            self.wf(),
        ensures
            match r {
                Ok(v) => {
                    &&& v.wf()
                    &&& self.element_spec().invertible(f25())
                    &&& v.element_spec() == self.element_spec().inverse_spec(f25())
                },
                Err(e) => {
                    &&& e == ArithmeticError::NotInvertible
                    &&& !self.element_spec().invertible(f25())
                },
            },
    {
        let (a, b) = (self.a, self.b);
        assert(a * a <= 16 && b * b <= 16) by (nonlinear_arith)
            requires
                a < 5,
                b < 5,
        ;
        // a^2 - 3*b^2 is congruent to a^2 + 2*b^2
        let denominator: u8 = (a * a + 2 * (b * b)) % 5;
        proof {
            let (ai, bi) = (a as int, b as int);
            lemma_mod_add_multiples_vanish(ai * ai - 3 * (bi * bi) + 5 * (bi * bi) - 5 * (bi * bi), 5);
            lemma_mod_multiples_vanish(bi * bi, ai * ai - 3 * (bi * bi), 5);
            assert(denominator == quad_norm(ai, bi, 3, 5));
        }
        if denominator == 0 {
            proof {
                assert forall|y: int| !is_inverse(0, y, 5) by {
                    assert(0 * y == 0);
                }
            }
            return Err(ArithmeticError::NotInvertible);
        }
        proof {
            let n = denominator as int;
            let w: int = if n == 1 {
                1
            } else if n == 2 {
                3
            } else if n == 3 {
                2
            } else {
                4
            };
            assert((n * w) % 5 == 1);
        }
        let inv: u8 = Self::mod_inverse(denominator, 5);
        proof {
            assert(is_inverse(denominator as int, inv as int, 5));
            lemma_inverse_of(denominator as int, inv as int, 5);
        }
        assert(a * inv <= 16 && b * inv <= 16) by (nonlinear_arith)
            requires
                a < 5,
                b < 5,
                inv < 5,
        ;
        let new_a: u8 = (a * inv) % 5;
        let new_b: u8 = (5 - (b * inv) % 5) % 5;
        proof {
            let t = b as int * inv as int;
            lemma_mod_add_multiples_vanish(-(t % 5), 5);
            lemma_sub_congruent(0, 0, t % 5, t, 5);
            lemma_mod_twice(t, 5);
        }
        Ok(F5x2 { a: new_a, b: new_b })
    }

    /// The quotient: `self` times the inverse of `other`, or `NotInvertible`
    /// where `other` is zero.
    pub fn div(self, other: F5x2) -> (r: Result<F5x2, ArithmeticError>)
        requires
            self.wf(),
            other.wf(),
        ensures
            match r {
                Ok(v) => {
                    &&& v.wf()
                    &&& other.element_spec().invertible(f25())
                    &&& v.element_spec() == self.element_spec().mul_spec(
                        other.element_spec().inverse_spec(f25()),
                        f25(),
                    )
                },
                Err(e) => {
                    &&& e == ArithmeticError::NotInvertible
                    &&& !other.element_spec().invertible(f25())
                },
            },
    {
        match other.inverse() {
            Ok(inv) => Ok(self.mul(inv)),
            Err(e) => Err(e),
        }
    }
}

} // verus!
