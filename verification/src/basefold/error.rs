use vstd::prelude::*;

verus! {

/// Failures of the BaseFold composition.
#[derive(Debug, Clone, Copy, PartialEq, Eq, Structural)]
pub enum Error {
    FriError(crate::fri::Error),
    SumcheckError(crate::sumcheck::Error),
    LensMismatch,
    InconsistentShared,
}

impl View for Error {
    type V = Error;

    open spec fn view(&self) -> Error {
        *self
    }
}

impl From<crate::fri::Error> for Error {
    fn from(e: crate::fri::Error) -> (r: Self) {
        Error::FriError(e)
    }
}

impl vstd::std_specs::convert::FromSpecImpl<crate::fri::Error> for Error {
    open spec fn obeys_from_spec() -> bool {
        true
    }

    open spec fn from_spec(e: crate::fri::Error) -> Self {
        Error::FriError(e)
    }
}

impl From<crate::sumcheck::Error> for Error {
    fn from(e: crate::sumcheck::Error) -> (r: Self) {
        Error::SumcheckError(e)
    }
}

impl vstd::std_specs::convert::FromSpecImpl<crate::sumcheck::Error> for Error {
    open spec fn obeys_from_spec() -> bool {
        true
    }

    open spec fn from_spec(e: crate::sumcheck::Error) -> Self {
        Error::SumcheckError(e)
    }
}

} // verus!
