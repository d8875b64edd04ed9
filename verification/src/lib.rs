//! Finite fields, polynomials and interactive claim reductions (FRI,
//! sumcheck and their composition), with machine-checked contracts.

pub mod field;
pub mod reduce;
pub mod util;
pub mod hash;
pub mod merkle;
pub mod poly;
pub mod fft;
pub mod code;
pub mod sumcheck;
pub mod fri;
pub mod basefold;
pub mod plonk;
pub mod transcript;
pub mod prover;
pub mod verify;
