use vstd::prelude::*;

verus! {

/// Failures of trace construction and constraint evaluation.
#[derive(Debug, Clone, Copy, PartialEq, Eq, Structural)]
pub enum Error {
    EmptyTrace,
    RowCountNotPowerOfTwo { len: usize },
    ColumnLengthMismatch { expected: usize, got: usize },
    InsufficientWires { gate_needs: usize, trace_has: usize },
    PolyError(crate::poly::Error),
}

impl From<crate::poly::Error> for Error {
    fn from(e: crate::poly::Error) -> (r: Self) {
        Error::PolyError(e)
    }
}

impl vstd::std_specs::convert::FromSpecImpl<crate::poly::Error> for Error {
    open spec fn obeys_from_spec() -> bool {
        true
    }

    open spec fn from_spec(e: crate::poly::Error) -> Self {
        Error::PolyError(e)
    }
}

} // verus!
