//! Univariate polynomials in coefficient form and multilinear polynomials in
//! evaluation form.

use vstd::prelude::*;

pub mod error;
pub mod laws;
pub mod multilinear;
pub mod univariate;


pub use self::error::Error;
pub use self::multilinear::MultilinearPoly;
pub use self::univariate::UnivariatePoly;


verus! {

} // verus!
