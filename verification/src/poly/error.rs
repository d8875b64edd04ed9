use vstd::prelude::*;

verus! {

/// Failures of polynomial construction and queries.
#[derive(Debug, Clone, Copy, PartialEq, Eq, Structural)]
pub enum Error {
    EmptyCoefficients,
    EvaluationDimensionMismatch { expected: usize, got: usize },
    IndexOutOfBounds { index: usize, len: usize },
}

} // verus!
