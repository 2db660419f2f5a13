//! Arithmetic in a prime field and the group of points of a curve
//! `y^2 = x^3 + a*x + b` over it, with scalar multiplication.
//!
//! [`finite_fields`] and [`point`] hold the executable types, each with a
//! mathematical model that its contracts speak of. [`field_laws`] and
//! [`curve_laws`] prove the laws of the two models; [`number_theory`] and
//! [`curve_algebra`] hold the arithmetic that those proofs rest on.
//! [`integer`] says what is taken on trust about the arbitrary-precision
//! integer that a point is multiplied by, and [`text`] renders numbers.
pub mod curve_algebra;
pub mod curve_laws;
pub mod field_laws;
pub mod finite_fields;
pub mod integer;
pub mod number_theory;
pub mod point;
pub mod text;
