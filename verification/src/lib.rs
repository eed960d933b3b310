//! Exact group arithmetic for elliptic curves `y^2 = x^3 + a*x + b` over
//! finite fields: modular arithmetic, prime and quadratic-extension field
//! elements, the chord-and-tangent group law, scalar multiplication and
//! point compression, each with a machine-checked contract.

pub mod big_curve;
pub mod closure;
pub mod compression;
pub mod curve;
pub mod embedding;
pub mod enumeration;
pub mod errors;
pub mod f5x2;
pub mod field;
pub mod group_laws;
pub mod isomorphism;
pub mod modular;
pub mod montgomery;
pub mod number_theory;
pub mod order;
pub mod prime_field;
pub mod primes;
pub mod quadratic_field;
pub mod residues;
pub mod scalar;
