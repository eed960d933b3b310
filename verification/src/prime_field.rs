//! The integers modulo `p` as a field.

use vstd::prelude::*;
use vstd::arithmetic::div_mod::*;
use vstd::arithmetic::mul::*;
use crate::errors::ArithmeticError;
use crate::field::FieldElement;
use crate::modular::{mod_add, mod_inverse, mod_mul, mod_pos, mod_sub};
use crate::number_theory::{inverse_of, invertible, is_inverse, lemma_inverse_of};

verus! {

/// The parameters of the integers modulo `modulus`.
#[derive(Clone, Copy, Debug, PartialEq, Eq, Structural)]
pub struct PrimeField {
    /// The modulus; positive, and a prime where the ring is to be a field.
    pub modulus: i64,
}

/// A residue modulo the field's modulus, held as its representative in
/// `[0, modulus)`.
#[derive(Clone, Copy, Debug, PartialEq, Eq, Structural)]
pub struct PrimeElement {
    /// The reduced representative.
    pub value: i64,
}

impl PrimeField {
    /// The field of integers modulo `modulus`, or `UnsupportedModulus` where
    /// the modulus is not positive.
    pub fn new(modulus: i64) -> (r: Result<PrimeField, ArithmeticError>)
        ensures
            match r {
                Ok(f) => modulus > 0 && f.modulus == modulus,
                Err(e) => modulus <= 0 && e == ArithmeticError::UnsupportedModulus,
            },
    {
        if modulus <= 0 {
            Err(ArithmeticError::UnsupportedModulus)
        } else {
            Ok(PrimeField { modulus })
        }
    }
}

impl PrimeElement {
    /// The residue of `value` in the field `f`.
    pub fn new(value: i64, f: &PrimeField) -> (r: PrimeElement)
        requires
            f.modulus > 0,
        ensures
            r.value == value as int % f.modulus as int,
            r.wf(*f),
    {
        PrimeElement { value: mod_pos(value, f.modulus) }
    }
}

impl FieldElement for PrimeElement {
    type Field = PrimeField;

    open spec fn field_wf(f: PrimeField) -> bool {
        f.modulus > 0
    }

    open spec fn wf(self, f: PrimeField) -> bool {
        0 <= self.value < f.modulus
    }

    open spec fn zero_spec(f: PrimeField) -> PrimeElement {
        PrimeElement { value: 0 }
    }

    open spec fn one_spec(f: PrimeField) -> PrimeElement {
        PrimeElement { value: (1int % f.modulus as int) as i64 }
    }

    open spec fn add_spec(self, rhs: PrimeElement, f: PrimeField) -> PrimeElement {
        PrimeElement { value: ((self.value + rhs.value) % f.modulus as int) as i64 }
    }

    open spec fn neg_spec(self, f: PrimeField) -> PrimeElement {
        PrimeElement { value: ((-self.value) % f.modulus as int) as i64 }
    }

    open spec fn sub_spec(self, rhs: PrimeElement, f: PrimeField) -> PrimeElement {
        PrimeElement { value: ((self.value - rhs.value) % f.modulus as int) as i64 }
    }

    open spec fn mul_spec(self, rhs: PrimeElement, f: PrimeField) -> PrimeElement {
        PrimeElement { value: ((self.value * rhs.value) % f.modulus as int) as i64 }
    }

    open spec fn invertible(self, f: PrimeField) -> bool {
        invertible(self.value as int, f.modulus as int)
    }

    open spec fn inverse_spec(self, f: PrimeField) -> PrimeElement {
        PrimeElement { value: inverse_of(self.value as int, f.modulus as int) as i64 }
    }

    fn zero(f: &PrimeField) -> (r: PrimeElement) {
        PrimeElement { value: 0 }
    }

    fn one(f: &PrimeField) -> (r: PrimeElement) {
        PrimeElement { value: mod_pos(1, f.modulus) }
    }

    fn add(self, rhs: PrimeElement, f: &PrimeField) -> (r: PrimeElement) {
        PrimeElement { value: mod_add(self.value, rhs.value, f.modulus) }
    }

    fn neg(self, f: &PrimeField) -> (r: PrimeElement) {
        PrimeElement { value: mod_sub(0, self.value, f.modulus) }
    }

    fn sub(self, rhs: PrimeElement, f: &PrimeField) -> (r: PrimeElement) {
        PrimeElement { value: mod_sub(self.value, rhs.value, f.modulus) }
    }

    fn mul(self, rhs: PrimeElement, f: &PrimeField) -> (r: PrimeElement) {
        PrimeElement { value: mod_mul(self.value, rhs.value, f.modulus) }
    }

    fn inverse(self, f: &PrimeField) -> (r: Result<PrimeElement, ArithmeticError>) {
        match mod_inverse(self.value, f.modulus) {
            Ok(y) => Ok(PrimeElement { value: y }),
            Err(e) => Err(e),
        }
    }

    fn equals(self, rhs: PrimeElement) -> (r: bool) {
        self.value == rhs.value
    }

    fn is_zero(self, f: &PrimeField) -> (r: bool) {
        self.value == 0
    }

    proof fn lemma_identities_closed(f: PrimeField) {
        lemma_mod_bound(1, f.modulus as int);
    }

    proof fn lemma_closed(x: PrimeElement, y: PrimeElement, f: PrimeField) {
        let m = f.modulus as int;
        lemma_mod_bound(x.value + y.value, m);
        lemma_mod_bound(x.value - y.value, m);
        lemma_mod_bound(-x.value, m);
        lemma_mod_bound(x.value * y.value, m);
    }

    proof fn lemma_additive_group(x: PrimeElement, y: PrimeElement, z: PrimeElement, f: PrimeField) {
        let m = f.modulus as int;
        let (a, b, c) = (x.value as int, y.value as int, z.value as int);
        lemma_mod_bound(a + b, m);
        lemma_mod_bound(b + c, m);
        lemma_mod_bound(-a, m);
        lemma_mod_bound(-b, m);
        lemma_small_mod(a as nat, m as nat);
        lemma_small_mod(c as nat, m as nat);
        // (a + b) % m + c  and  a + (b + c) % m  are congruent to a + b + c
        lemma_add_mod_noop_right(a, b + c, m);
        lemma_add_mod_noop_right(c, a + b, m);
        assert(((a + b) % m + c) % m == (a + (b + c) % m) % m);
        // a + (-a) % m is congruent to 0
        lemma_add_mod_noop_right(a, -a, m);
        lemma_small_mod(0, m as nat);
        // a + (-b) % m is congruent to a - b
        lemma_add_mod_noop_right(a, -b, m);
    }

    proof fn lemma_multiplicative(x: PrimeElement, y: PrimeElement, z: PrimeElement, f: PrimeField) {
        let m = f.modulus as int;
        let (a, b, c) = (x.value as int, y.value as int, z.value as int);
        lemma_mod_bound(a * b, m);
        lemma_mod_bound(b * c, m);
        lemma_mod_bound(a * c, m);
        lemma_mod_bound(b + c, m);
        lemma_mod_bound(1, m);
        lemma_small_mod(a as nat, m as nat);
        lemma_mul_is_commutative(a, b);
        // associativity
        lemma_mul_mod_noop_left(a * b, c, m);
        lemma_mul_mod_noop_right(a, b * c, m);
        lemma_mul_is_associative(a, b, c);
        // identity
        lemma_mul_mod_noop_right(a, 1, m);
        // distributivity
        lemma_mul_mod_noop_right(a, b + c, m);
        lemma_mul_is_distributive_add(a, b, c);
        lemma_add_mod_noop(a * b, a * c, m);
    }

    proof fn lemma_inverse(x: PrimeElement, y: PrimeElement, f: PrimeField) {
        let m = f.modulus as int;
        lemma_mod_bound(1, m);
        if x.invertible(f) {
            let u = inverse_of(x.value as int, m);
            assert(is_inverse(x.value as int, u, m));
        }
        if x.mul_spec(y, f) == Self::one_spec(f) {
            lemma_mod_bound(x.value * y.value, m);
            assert(is_inverse(x.value as int, y.value as int, m));
            lemma_inverse_of(x.value as int, y.value as int, m);
        }
    }
}

} // verus!
