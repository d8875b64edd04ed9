//! Recursive composition: run `Inner`, encode its verifier as an `Outer`
//! claim, then run `Outer`.

use std::marker::PhantomData;
use vstd::prelude::*;

use super::{result_view, ReductionFunctor, TranscriptSerialize};
use crate::field::Field;

verus! {

/// Converts the end of an `Inner` run into the start of an `Outer` run.
pub trait RecursionBridge {
    type Inner: ReductionFunctor;
    type Outer: ReductionFunctor;
    type Error: View;

    spec fn spec_encode_verifier(
        inner_claim: <<Self::Inner as ReductionFunctor>::Claim as View>::V,
        inner_opening: <<Self::Inner as ReductionFunctor>::BaseOpening as View>::V,
    ) -> Result<
        (
            <<Self::Outer as ReductionFunctor>::Claim as View>::V,
            <<Self::Outer as ReductionFunctor>::Witness as View>::V,
        ),
        <Self::Error as View>::V,
    >;

    fn encode_verifier(
        inner_claim: <Self::Inner as ReductionFunctor>::Claim,
        inner_opening: <Self::Inner as ReductionFunctor>::BaseOpening,
    ) -> (r: Result<
        (<Self::Outer as ReductionFunctor>::Claim, <Self::Outer as ReductionFunctor>::Witness),
        Self::Error,
    >)
        ensures
            result_view(r) == Self::spec_encode_verifier(inner_claim@, inner_opening@);
}

/// A recursive claim: still in the inner phase, or in the outer phase.
#[derive(Debug, Clone)]
pub enum RecurseClaim<CI, CO> {
    Inner(CI),
    Outer(CO),
}

#[derive(Debug, Clone)]
pub enum RecurseWitness<WI, WO> {
    Inner(WI),
    Outer(WO),
}

#[derive(Debug, Clone)]
pub enum RecurseRoundMsg<MI, MO> {
    Inner(MI),
    Outer(MO),
}

impl<CI: View, CO: View> View for RecurseClaim<CI, CO> {
    type V = RecurseClaim<CI::V, CO::V>;

    open spec fn view(&self) -> Self::V {
        match self {
            RecurseClaim::Inner(c) => RecurseClaim::Inner(c@),
            RecurseClaim::Outer(c) => RecurseClaim::Outer(c@),
        }
    }
}

impl<WI: View, WO: View> View for RecurseWitness<WI, WO> {
    type V = RecurseWitness<WI::V, WO::V>;

    open spec fn view(&self) -> Self::V {
        match self {
            RecurseWitness::Inner(w) => RecurseWitness::Inner(w@),
            RecurseWitness::Outer(w) => RecurseWitness::Outer(w@),
        }
    }
}

impl<MI: View, MO: View> View for RecurseRoundMsg<MI, MO> {
    type V = RecurseRoundMsg<MI::V, MO::V>;

    open spec fn view(&self) -> Self::V {
        match self {
            RecurseRoundMsg::Inner(m) => RecurseRoundMsg::Inner(m@),
            RecurseRoundMsg::Outer(m) => RecurseRoundMsg::Outer(m@),
        }
    }
}

impl<F: Field, MI: View, MO: View> TranscriptSerialize<F> for RecurseRoundMsg<MI, MO> where
    MI: TranscriptSerialize<F>,
    MO: TranscriptSerialize<F>,
 {
    open spec fn spec_field_elements(m: RecurseRoundMsg<MI::V, MO::V>) -> Seq<int> {
        match m {
            RecurseRoundMsg::Inner(mi) => MI::spec_field_elements(mi),
            RecurseRoundMsg::Outer(mo) => MO::spec_field_elements(mo),
        }
    }

    fn to_field_elements(&self) -> (r: Vec<F>) {
        match self {
            RecurseRoundMsg::Inner(m) => m.to_field_elements(),
            RecurseRoundMsg::Outer(m) => m.to_field_elements(),
        }
    }
}

#[derive(Debug)]
pub enum RecurseError<EI, EO, EB> {
    Inner(EI),
    Outer(EO),
    Bridge(EB),
    PhaseDesync,
}

impl<EI: View, EO: View, EB: View> View for RecurseError<EI, EO, EB> {
    type V = RecurseError<EI::V, EO::V, EB::V>;

    open spec fn view(&self) -> Self::V {
        match self {
            RecurseError::Inner(e) => RecurseError::Inner(e@),
            RecurseError::Outer(e) => RecurseError::Outer(e@),
            RecurseError::Bridge(e) => RecurseError::Bridge(e@),
            RecurseError::PhaseDesync => RecurseError::PhaseDesync,
        }
    }
}

/// The recursive composition of the reductions named by the bridge `B`.
pub struct Recurse<B> {
    _marker: PhantomData<B>,
}

} // verus!
