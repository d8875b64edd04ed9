use vstd::prelude::*;

verus! {

/// Failures of a sumcheck round.
#[derive(Debug, Clone, Copy, PartialEq, Eq, Structural)]
pub enum Error {
    RoundSumMismatch,
    StepOnFinished,
    WitnessEmpty,
    /// The challenge equals a looked-up value or a table entry.
    DivisionByZero,
}

impl View for Error {
    type V = Error;

    open spec fn view(&self) -> Error {
        *self
    }
}

impl Error {
    /// A human-readable description of the failure.
    pub fn message(&self) -> (r: &'static str)
        ensures
            r@ == match self {
                Error::RoundSumMismatch => "round polynomial s(0) + s(1) does not match claimed sum"@,
                Error::StepOnFinished => "prover_step called on fully reduced claim"@,
                Error::WitnessEmpty => "witness polynomial has no evaluations"@,
                Error::DivisionByZero => "lookup challenge equals a value or a table entry"@,
            },
    {
        match self {
            Error::RoundSumMismatch => "round polynomial s(0) + s(1) does not match claimed sum",
            Error::StepOnFinished => "prover_step called on fully reduced claim",
            Error::WitnessEmpty => "witness polynomial has no evaluations",
            Error::DivisionByZero => "lookup challenge equals a value or a table entry",
        }
    }
}

} // verus!
