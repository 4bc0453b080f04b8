use vstd::prelude::*;

verus! {

/// The shapes, as `(rows, columns)`, of operands that do not fit together.
#[derive(Debug)]
pub struct IncompatibleShapeError {
    pub shapes: Vec<(usize, usize)>,
}

} // verus!
