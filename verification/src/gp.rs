//! Gaussian process regression: fitting and prediction.

pub mod base;
pub mod errors;

pub use base::{CompiledGP, GP};
