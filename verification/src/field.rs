//! The field abstraction: what the curve arithmetic needs of its coordinates.

use vstd::prelude::*;
use crate::errors::ArithmeticError;

verus! {

/// A value of a finite commutative ring with identity, such as the integers
/// modulo `p` or a quadratic extension of them.
///
/// Every operation takes the field's parameters explicitly. The `*_spec`
/// functions say what the operations compute; the proof functions are the
/// ring laws, which every implementation proves of its own arithmetic.
pub trait FieldElement: Copy {
    /// The parameters that fix the field, such as its modulus.
    type Field: Copy;

    /// The parameters describe a field that can be computed in.
    spec fn field_wf(f: Self::Field) -> bool;

    /// The value is in reduced form for the field `f`.
    spec fn wf(self, f: Self::Field) -> bool;

    /// The additive identity.
    spec fn zero_spec(f: Self::Field) -> Self;

    /// The multiplicative identity.
    spec fn one_spec(f: Self::Field) -> Self;

    /// The sum.
    spec fn add_spec(self, rhs: Self, f: Self::Field) -> Self;

    /// The additive inverse.
    spec fn neg_spec(self, f: Self::Field) -> Self;

    /// The difference.
    spec fn sub_spec(self, rhs: Self, f: Self::Field) -> Self;

    /// The product.
    spec fn mul_spec(self, rhs: Self, f: Self::Field) -> Self;

    /// The value has a multiplicative inverse.
    spec fn invertible(self, f: Self::Field) -> bool;

    /// The multiplicative inverse of an invertible value.
    spec fn inverse_spec(self, f: Self::Field) -> Self;

    /// The additive identity.
    fn zero(f: &Self::Field) -> (r: Self)
        requires
            Self::field_wf(*f),
        ensures
            r == Self::zero_spec(*f),
            r.wf(*f),
    ;

    /// The multiplicative identity.
    fn one(f: &Self::Field) -> (r: Self)
        requires
            Self::field_wf(*f),
        ensures
            r == Self::one_spec(*f),
            r.wf(*f),
    ;

    /// Adds two values.
    fn add(self, rhs: Self, f: &Self::Field) -> (r: Self)
        requires
            Self::field_wf(*f),
            self.wf(*f),
            rhs.wf(*f),
        ensures
            r == self.add_spec(rhs, *f),
            r.wf(*f),
    ;

    /// Negates a value.
    fn neg(self, f: &Self::Field) -> (r: Self)
        requires
            Self::field_wf(*f),
            self.wf(*f),
        ensures
            r == self.neg_spec(*f),
            r.wf(*f),
    ;

    /// Subtracts `rhs` from `self`.
    fn sub(self, rhs: Self, f: &Self::Field) -> (r: Self)
        requires
            Self::field_wf(*f),
            self.wf(*f),
            rhs.wf(*f),
        ensures
            r == self.sub_spec(rhs, *f),
            r.wf(*f),
    ;

    /// Multiplies two values.
    fn mul(self, rhs: Self, f: &Self::Field) -> (r: Self)
        requires
            Self::field_wf(*f),
            self.wf(*f),
            rhs.wf(*f),
        ensures
            r == self.mul_spec(rhs, *f),
            r.wf(*f),
    ;

    /// The multiplicative inverse, or `NotInvertible` where there is none.
    fn inverse(self, f: &Self::Field) -> (r: Result<Self, ArithmeticError>)
        requires
            Self::field_wf(*f),
            self.wf(*f),
        ensures
            match r {
                Ok(v) => self.invertible(*f) && v == self.inverse_spec(*f) && v.wf(*f),
                Err(e) => !self.invertible(*f) && e == ArithmeticError::NotInvertible,
            },
    ;

    /// Whether two reduced values are the same field element.
    fn equals(self, rhs: Self) -> (r: bool)
        ensures
            r == (self == rhs),
    ;

    /// Whether the value is the additive identity.
    fn is_zero(self, f: &Self::Field) -> (r: bool)
        requires
            Self::field_wf(*f),
            self.wf(*f),
        ensures
            r == (self == Self::zero_spec(*f)),
    ;

    /// The operations stay inside the field.
    proof fn lemma_closed(x: Self, y: Self, f: Self::Field)
        requires
            Self::field_wf(f),
            x.wf(f),
            y.wf(f),
        ensures
            x.add_spec(y, f).wf(f),
            x.sub_spec(y, f).wf(f),
            x.neg_spec(f).wf(f),
            x.mul_spec(y, f).wf(f),
            x.invertible(f) ==> x.inverse_spec(f).wf(f),
    ;

    /// Zero and one are reduced values of the field.
    proof fn lemma_identities_closed(f: Self::Field)
        requires
            Self::field_wf(f),
        ensures
            Self::zero_spec(f).wf(f),
            Self::one_spec(f).wf(f),
    ;

    /// Addition is commutative and associative, with zero as its identity
    /// and `neg_spec` giving inverses; subtraction adds the negation.
    proof fn lemma_additive_group(x: Self, y: Self, z: Self, f: Self::Field)
        requires
            Self::field_wf(f),
            x.wf(f),
            y.wf(f),
            z.wf(f),
        ensures
            x.add_spec(y, f) == y.add_spec(x, f),
            x.add_spec(y, f).add_spec(z, f) == x.add_spec(y.add_spec(z, f), f),
            x.add_spec(Self::zero_spec(f), f) == x,
            x.add_spec(x.neg_spec(f), f) == Self::zero_spec(f),
            x.sub_spec(y, f) == x.add_spec(y.neg_spec(f), f),
    ;

    /// Multiplication is commutative and associative, with one as its
    /// identity, and distributes over addition.
    proof fn lemma_multiplicative(x: Self, y: Self, z: Self, f: Self::Field)
        requires
            Self::field_wf(f),
            x.wf(f),
            y.wf(f),
            z.wf(f),
        ensures
            x.mul_spec(y, f) == y.mul_spec(x, f),
            x.mul_spec(y, f).mul_spec(z, f) == x.mul_spec(y.mul_spec(z, f), f),
            x.mul_spec(Self::one_spec(f), f) == x,
            x.mul_spec(y.add_spec(z, f), f) == x.mul_spec(y, f).add_spec(x.mul_spec(z, f), f),
    ;

    /// The inverse of an invertible value multiplies with it to one, and a
    /// value that multiplies with another to one is invertible, with that
    /// other value as its inverse.
    proof fn lemma_inverse(x: Self, y: Self, f: Self::Field)
        requires
            Self::field_wf(f),
            x.wf(f),
            y.wf(f),
        ensures
            x.invertible(f) ==> x.mul_spec(x.inverse_spec(f), f) == Self::one_spec(f),
            x.mul_spec(y, f) == Self::one_spec(f) ==> x.invertible(f) && x.inverse_spec(f) == y,
    ;
}

/// The quotient of `x` by an invertible `y`.
pub open spec fn div_spec<F: FieldElement>(x: F, y: F, f: F::Field) -> F {
    x.mul_spec(y.inverse_spec(f), f)
}

/// Divides `x` by `y`: `x` times the inverse of `y`, or `NotInvertible` where
/// `y` has no inverse.
pub fn div<F: FieldElement>(x: F, y: F, f: &F::Field) -> (r: Result<F, ArithmeticError>)
    requires
        F::field_wf(*f),
        x.wf(*f),
        y.wf(*f),
    ensures
        match r {
            Ok(v) => y.invertible(*f) && v == div_spec(x, y, *f) && v.wf(*f),
            Err(e) => !y.invertible(*f) && e == ArithmeticError::NotInvertible,
        },
{
    match y.inverse(f) {
        Ok(inv) => Ok(x.mul(inv, f)),
        Err(e) => Err(e),
    }
}

/// The only value that adds with `x` to zero is its negation.
pub proof fn lemma_neg_unique<F: FieldElement>(x: F, y: F, f: F::Field)
    requires
        F::field_wf(f),
        x.wf(f),
        y.wf(f),
        x.add_spec(y, f) == F::zero_spec(f),
    ensures
        y == x.neg_spec(f),
{
    let zero = F::zero_spec(f);
    let nx = x.neg_spec(f);
    F::lemma_identities_closed(f);
    F::lemma_closed(x, y, f);
    F::lemma_additive_group(y, x, nx, f);
    F::lemma_additive_group(x, y, nx, f);
    F::lemma_additive_group(nx, zero, zero, f);
    F::lemma_additive_group(zero, nx, zero, f);
    // y = y + (x + -x) = (y + x) + -x = 0 + -x = -x
    assert(y.add_spec(x.add_spec(nx, f), f) == y);
    assert(y.add_spec(x, f).add_spec(nx, f) == zero.add_spec(nx, f));
}

/// Negating twice gives the value back.
pub proof fn lemma_neg_neg<F: FieldElement>(x: F, f: F::Field)
    requires
        F::field_wf(f),
        x.wf(f),
    ensures
        x.neg_spec(f).neg_spec(f) == x,
{
    let nx = x.neg_spec(f);
    F::lemma_closed(x, x, f);
    F::lemma_additive_group(x, nx, x, f);
    F::lemma_additive_group(nx, x, x, f);
    lemma_neg_unique(nx, x, f);
}

/// The negation of a sum is the sum of the negations.
pub proof fn lemma_neg_add<F: FieldElement>(x: F, y: F, f: F::Field)
    requires
        F::field_wf(f),
        x.wf(f),
        y.wf(f),
    ensures
        x.add_spec(y, f).neg_spec(f) == x.neg_spec(f).add_spec(y.neg_spec(f), f),
{
    let zero = F::zero_spec(f);
    let (nx, ny) = (x.neg_spec(f), y.neg_spec(f));
    F::lemma_identities_closed(f);
    F::lemma_closed(x, y, f);
    F::lemma_closed(y, x, f);
    F::lemma_closed(nx, ny, f);
    let s = x.add_spec(y, f);
    let t = nx.add_spec(ny, f);
    // (x + y) + (-x + -y) = x + (y + (-x + -y)) = x + (y + (-y + -x))
    //   = x + ((y + -y) + -x) = x + (0 + -x) = x + -x = 0
    F::lemma_additive_group(x, y, t, f);
    F::lemma_additive_group(nx, ny, zero, f);
    F::lemma_additive_group(y, ny, nx, f);
    F::lemma_additive_group(zero, nx, zero, f);
    F::lemma_additive_group(nx, zero, zero, f);
    F::lemma_additive_group(x, nx, zero, f);
    assert(y.add_spec(t, f) == nx);
    assert(s.add_spec(t, f) == zero);
    lemma_neg_unique(s, t, f);
}

/// Negating a difference swaps its terms.
pub proof fn lemma_neg_sub<F: FieldElement>(x: F, y: F, f: F::Field)
    requires
        F::field_wf(f),
        x.wf(f),
        y.wf(f),
    ensures
        x.sub_spec(y, f).neg_spec(f) == y.sub_spec(x, f),
{
    let (nx, ny) = (x.neg_spec(f), y.neg_spec(f));
    F::lemma_closed(x, y, f);
    F::lemma_closed(y, x, f);
    F::lemma_additive_group(x, y, y, f);
    F::lemma_additive_group(y, x, x, f);
    F::lemma_additive_group(nx, y, y, f);
    lemma_neg_add(x, ny, f);
    lemma_neg_neg(y, f);
}

/// Subtracting two values in turn does not depend on their order.
pub proof fn lemma_sub_swap<F: FieldElement>(l: F, x: F, y: F, f: F::Field)
    requires
        F::field_wf(f),
        l.wf(f),
        x.wf(f),
        y.wf(f),
    ensures
        l.sub_spec(x, f).sub_spec(y, f) == l.sub_spec(y, f).sub_spec(x, f),
{
    let (nx, ny) = (x.neg_spec(f), y.neg_spec(f));
    F::lemma_closed(x, y, f);
    F::lemma_closed(y, x, f);
    F::lemma_closed(l, nx, f);
    F::lemma_closed(l, ny, f);
    F::lemma_additive_group(l, x, y, f);
    F::lemma_additive_group(l, y, x, f);
    F::lemma_additive_group(l.add_spec(nx, f), y, y, f);
    F::lemma_additive_group(l.add_spec(ny, f), x, x, f);
    F::lemma_additive_group(l, nx, ny, f);
    F::lemma_additive_group(l, ny, nx, f);
    F::lemma_additive_group(nx, ny, ny, f);
}

/// A product with zero is zero.
pub proof fn lemma_mul_zero<F: FieldElement>(x: F, f: F::Field)
    requires
        F::field_wf(f),
        x.wf(f),
    ensures
        x.mul_spec(F::zero_spec(f), f) == F::zero_spec(f),
{
    let zero = F::zero_spec(f);
    F::lemma_identities_closed(f);
    F::lemma_closed(x, zero, f);
    let a = x.mul_spec(zero, f);
    let na = a.neg_spec(f);
    F::lemma_closed(a, a, f);
    F::lemma_additive_group(zero, zero, zero, f);
    F::lemma_multiplicative(x, zero, zero, f);
    // a = a + a, so 0 = a + -a = (a + a) + -a = a + (a + -a) = a
    assert(a == a.add_spec(a, f));
    F::lemma_additive_group(a, a, na, f);
}

/// A product with a negation is the negation of the product.
pub proof fn lemma_mul_neg<F: FieldElement>(x: F, y: F, f: F::Field)
    requires
        F::field_wf(f),
        x.wf(f),
        y.wf(f),
    ensures
        x.mul_spec(y.neg_spec(f), f) == x.mul_spec(y, f).neg_spec(f),
{
    let ny = y.neg_spec(f);
    F::lemma_closed(x, y, f);
    F::lemma_closed(y, x, f);
    F::lemma_closed(x, ny, f);
    F::lemma_additive_group(y, ny, ny, f);
    F::lemma_multiplicative(x, y, ny, f);
    lemma_mul_zero(x, f);
    lemma_neg_unique(x.mul_spec(y, f), x.mul_spec(ny, f), f);
}

/// The product of two negations is the product of the values.
pub proof fn lemma_mul_neg_neg<F: FieldElement>(x: F, y: F, f: F::Field)
    requires
        F::field_wf(f),
        x.wf(f),
        y.wf(f),
    ensures
        x.neg_spec(f).mul_spec(y.neg_spec(f), f) == x.mul_spec(y, f),
{
    let (nx, ny) = (x.neg_spec(f), y.neg_spec(f));
    F::lemma_closed(x, y, f);
    F::lemma_closed(y, x, f);
    lemma_mul_neg(nx, y, f);
    F::lemma_multiplicative(nx, y, y, f);
    lemma_mul_neg(y, x, f);
    F::lemma_multiplicative(y, x, x, f);
    F::lemma_closed(y, x, f);
    lemma_neg_neg(y.mul_spec(x, f), f);
}

/// A value and its negation are invertible together, and the inverse of the
/// negation is the negation of the inverse.
pub proof fn lemma_inverse_neg<F: FieldElement>(x: F, f: F::Field)
    requires
        F::field_wf(f),
        x.wf(f),
    ensures
        x.neg_spec(f).invertible(f) == x.invertible(f),
        x.invertible(f) ==> x.neg_spec(f).inverse_spec(f) == x.inverse_spec(f).neg_spec(f),
{
    let nx = x.neg_spec(f);
    F::lemma_closed(x, x, f);
    if x.invertible(f) {
        let u = x.inverse_spec(f);
        F::lemma_closed(u, u, f);
        F::lemma_inverse(x, u, f);
        lemma_mul_neg_neg(x, u, f);
        F::lemma_inverse(nx, u.neg_spec(f), f);
    }
    if nx.invertible(f) {
        let u = nx.inverse_spec(f);
        F::lemma_closed(nx, nx, f);
        F::lemma_closed(u, u, f);
        F::lemma_inverse(nx, u, f);
        lemma_mul_neg_neg(nx, u, f);
        lemma_neg_neg(x, f);
        F::lemma_inverse(x, u.neg_spec(f), f);
    }
}

/// Multiplying a quotient by its divisor gives the dividend back.
pub proof fn lemma_div_mul_cancel<F: FieldElement>(n: F, d: F, f: F::Field)
    requires
        F::field_wf(f),
        n.wf(f),
        d.wf(f),
        d.invertible(f),
    ensures
        div_spec(n, d, f).mul_spec(d, f) == n,
{
    let u = d.inverse_spec(f);
    F::lemma_closed(d, d, f);
    F::lemma_inverse(d, u, f);
    F::lemma_multiplicative(n, u, d, f);
    F::lemma_multiplicative(u, d, d, f);
    F::lemma_multiplicative(n, d, d, f);
}

/// `(a - b) + (b - c) = a - c`.
pub proof fn lemma_sub_add_sub<F: FieldElement>(a: F, b: F, c: F, f: F::Field)
    requires
        F::field_wf(f),
        a.wf(f),
        b.wf(f),
        c.wf(f),
    ensures
        a.sub_spec(b, f).add_spec(b.sub_spec(c, f), f) == a.sub_spec(c, f),
{
    let zero = F::zero_spec(f);
    let (nb, nc) = (b.neg_spec(f), c.neg_spec(f));
    F::lemma_identities_closed(f);
    F::lemma_closed(b, c, f);
    F::lemma_closed(c, c, f);
    F::lemma_closed(b, nc, f);
    let s2 = b.add_spec(nc, f);
    // (a + -b) + (b + -c) = a + (-b + (b + -c)) = a + ((-b + b) + -c) = a + -c
    F::lemma_additive_group(a, b, c, f);
    F::lemma_additive_group(b, c, c, f);
    F::lemma_additive_group(a, c, c, f);
    F::lemma_additive_group(a, nb, s2, f);
    F::lemma_additive_group(nb, b, nc, f);
    F::lemma_additive_group(b, nb, nb, f);
    F::lemma_additive_group(zero, nc, nc, f);
    F::lemma_additive_group(nc, zero, zero, f);
    assert(nb.add_spec(s2, f) == nc);
}

/// `((a - b) + p) - a = p - b`.
pub proof fn lemma_sub_add_cancel<F: FieldElement>(a: F, b: F, p: F, f: F::Field)
    requires
        F::field_wf(f),
        a.wf(f),
        b.wf(f),
        p.wf(f),
    ensures
        a.sub_spec(b, f).add_spec(p, f).sub_spec(a, f) == p.sub_spec(b, f),
{
    let zero = F::zero_spec(f);
    let (na, nb) = (a.neg_spec(f), b.neg_spec(f));
    F::lemma_identities_closed(f);
    F::lemma_closed(a, b, f);
    F::lemma_closed(b, p, f);
    F::lemma_closed(nb, p, f);
    F::lemma_closed(a, nb, f);
    let t = nb.add_spec(p, f);
    F::lemma_closed(a.add_spec(nb, f), p, f);
    // ((a + -b) + p) + -a = (a + (-b + p)) + -a = ((-b + p) + a) + -a
    //   = (-b + p) + (a + -a) = -b + p = p + -b
    F::lemma_additive_group(a, b, b, f);
    F::lemma_additive_group(p, b, b, f);
    F::lemma_additive_group(a.add_spec(nb, f).add_spec(p, f), a, a, f);
    F::lemma_additive_group(a, nb, p, f);
    F::lemma_additive_group(a, t, t, f);
    F::lemma_additive_group(t, a, na, f);
    F::lemma_additive_group(t, zero, zero, f);
    F::lemma_additive_group(nb, p, p, f);
    assert(a.add_spec(nb, f).add_spec(p, f) == t.add_spec(a, f));
    assert(t.add_spec(a, f).add_spec(na, f) == t);
}

} // verus!
