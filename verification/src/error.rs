use vstd::prelude::*;

verus! {

/// The two ways in which building a model can fail.
#[derive(Clone, Copy, Debug, PartialEq, Eq, Structural)]
pub enum ModelError {
    /// A value that must be a number, or an array, is something else.
    TypeMismatch,
    /// The matrix is not square, or a vector's length is not the matrix's side.
    DimensionMismatch,
}

} // verus!
