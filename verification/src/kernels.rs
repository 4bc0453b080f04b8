//! Covariance functions and the matrices built from them.

pub mod errors;
pub mod kernel;
pub mod rbf;

pub use kernel::Kernel;
pub use rbf::RBF;
