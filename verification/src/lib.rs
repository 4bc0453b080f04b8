//! Gaussian process regression on dense, column-major matrices, generic over the
//! scalar type that carries the arithmetic.
//!
//! Matrices are always `rows x columns` with one observation per column.

pub mod gp;
pub mod indexing;
pub mod kernels;
pub mod linalg;
mod parallel;
pub mod parameterized;
pub mod scalar;
