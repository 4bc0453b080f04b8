//! Models whose parameters can be read, replaced and differentiated.

use crate::linalg::matrix::Matrix;
use vstd::prelude::*;

verus! {

/// A model that is determined by parameters of type `P`.
pub trait Parameterized<P>: Sized {
    /// Get the model parameters
    fn get_params(&self) -> P;

    /// Set the model parameters
    fn set_params(&mut self, params: P);

    /// Create a new model from parameters
    fn from_params(params: P) -> Self;
}

pub trait Jacobian<T> {
    /// Get the model derivative
    fn jacobian(&self, x: &Matrix<T>) -> Matrix<T>;
}

pub trait Hessian<T> {
    /// Get the second derivative
    fn hessian(&self, x: &Matrix<T>) -> Matrix<T>;
}

} // verus!
