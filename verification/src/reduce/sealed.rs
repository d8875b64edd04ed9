//! Type-level evidence that two reductions draw the same kind of challenge.

use vstd::prelude::*;

use super::ReductionFunctor;

verus! {

pub trait SameChallenge<A: ReductionFunctor, B: ReductionFunctor> {

}

/// The only implementor of `SameChallenge`, and only for matching challenges.
pub struct SameChallengeWitness;

impl<A, B> SameChallenge<A, B> for SameChallengeWitness where
    A: ReductionFunctor,
    B: ReductionFunctor<Challenge = <A as ReductionFunctor>::Challenge>,
 {

}

} // verus!
