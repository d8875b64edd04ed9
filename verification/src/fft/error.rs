use vstd::prelude::*;

verus! {

/// Failures of the transforms.
#[derive(Debug, Clone, Copy, PartialEq, Eq, Structural)]
pub enum Error {
    LengthNotPowerOfTwo { len: usize },
    EmptyInput,
    InverseOfZero,
}

} // verus!
