//! An indifferentiable hash to the G1 curves `y^2 = x^3 + b` of the
//! BLS12-381 and BLS12-377 families: a byte string goes through a
//! SHA-512 field hash, a rational map onto a Calabi-Yau threefold, and
//! a cube-root extraction back onto the curve, giving a point whose
//! distribution is indistinguishable from uniform.
pub mod arith;
pub mod field;
pub mod hash;
pub mod bls12_381;
pub mod bls12_377;
