use vstd::prelude::*;

verus! {

/// Why an operation on vectors or matrices could not produce a result.
#[derive(PartialEq, Eq, Debug, Clone, Copy, Structural)]
pub enum LinalgError {
    /// Two operands whose lengths must agree do not.
    DimensionMismatch,
    /// An element was asked for at an index at or past the length.
    IndexOutOfRange,
    /// An inverse was asked for a matrix whose determinant is zero.
    SingularMatrix,
}

} // verus!
