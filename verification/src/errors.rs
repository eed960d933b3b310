//! The failures that the arithmetic can report.

use vstd::prelude::*;

verus! {

/// Why an operation could not produce a value.
#[derive(Clone, Copy, Debug, PartialEq, Eq, Structural)]
pub enum ArithmeticError {
    /// The operand has no multiplicative inverse: it shares a factor with the
    /// modulus, or its norm does in an extension field.
    NotInvertible,
    /// The point does not satisfy the curve equation.
    NotOnCurve,
    /// The value is not a square modulo the modulus.
    NoSquareRoot,
    /// The square-root method does not apply to this modulus, which must be
    /// congruent to 3 modulo 4.
    UnsupportedModulus,
}

} // verus!
