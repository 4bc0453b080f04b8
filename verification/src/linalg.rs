//! Dense linear algebra on column-major matrices.

pub mod errors;
pub mod matmul;
pub mod matrix;
pub mod solve;
pub mod util;
