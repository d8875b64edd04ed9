use vstd::prelude::*;

verus! {

/// Failures of field arithmetic.
#[derive(Debug, Clone, Copy, PartialEq, Eq, Structural)]
pub enum Error {
    DivisionByZero,
    InvalidFieldElement,
}

} // verus!
