use vstd::prelude::*;

verus! {

/// Failures of a FRI round.
#[derive(Debug, Clone, Copy, PartialEq, Eq, Structural)]
pub enum Error {
    StepOnFinished,
    CodewordLengthNotPowerOfTwo { len: usize },
    CodewordEmpty,
    MerkleError(crate::merkle::Error),
    FoldingMismatch,
}

impl View for Error {
    type V = Error;

    open spec fn view(&self) -> Error {
        *self
    }
}

impl From<crate::merkle::Error> for Error {
    fn from(e: crate::merkle::Error) -> (r: Self) {
        Error::MerkleError(e)
    }
}

impl vstd::std_specs::convert::FromSpecImpl<crate::merkle::Error> for Error {
    open spec fn obeys_from_spec() -> bool {
        true
    }

    open spec fn from_spec(e: crate::merkle::Error) -> Self {
        Error::MerkleError(e)
    }
}

} // verus!
