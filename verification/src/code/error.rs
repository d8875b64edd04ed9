use vstd::prelude::*;

verus! {

/// Failures of encoding.
#[derive(Debug, Clone, Copy, PartialEq, Eq, Structural)]
pub enum Error {
    MessageTooLong { msg_len: usize, rate_times_n: usize },
    FftError(crate::fft::Error),
    InvalidRate,
}

} // verus!
