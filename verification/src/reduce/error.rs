use vstd::prelude::*;

verus! {

#[derive(Debug, Clone, Copy, PartialEq, Eq, Structural)]
pub enum Error {
    StepOnFinishedClaim,
    ChallengeUnused,
    MessageConsistencyFailure,
}

impl View for Error {
    type V = Error;

    open spec fn view(&self) -> Error {
        *self
    }
}

/// Failures of a `Seq` composition.
#[derive(Debug)]
pub enum SeqError<EA, EB, EAd> {
    InA(EA),
    InB(EB),
    Handoff(EAd),
    PhaseDesync,
}

impl<EA: View, EB: View, EAd: View> View for SeqError<EA, EB, EAd> {
    type V = SeqError<EA::V, EB::V, EAd::V>;

    open spec fn view(&self) -> Self::V {
        match self {
            SeqError::InA(e) => SeqError::InA(e@),
            SeqError::InB(e) => SeqError::InB(e@),
            SeqError::Handoff(e) => SeqError::Handoff(e@),
            SeqError::PhaseDesync => SeqError::PhaseDesync,
        }
    }
}

/// Failures of an `Interleave` composition.
#[derive(Debug)]
pub enum InterleaveError<EA, EB, EAd> {
    InA(EA),
    InB(EB),
    Adapter(EAd),
    DoneDesync,
}

impl<EA: View, EB: View, EAd: View> View for InterleaveError<EA, EB, EAd> {
    type V = InterleaveError<EA::V, EB::V, EAd::V>;

    open spec fn view(&self) -> Self::V {
        match self {
            InterleaveError::InA(e) => InterleaveError::InA(e@),
            InterleaveError::InB(e) => InterleaveError::InB(e@),
            InterleaveError::Adapter(e) => InterleaveError::Adapter(e@),
            InterleaveError::DoneDesync => InterleaveError::DoneDesync,
        }
    }
}

} // verus!
