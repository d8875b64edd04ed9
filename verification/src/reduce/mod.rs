//! Interactive claim reductions and the combinators that compose them.
//!
//! A `ReductionFunctor` consumes one verifier challenge per round and either
//! produces a smaller claim (`Continue`) or terminates with an opening
//! (`Done`).  Each implementation exposes its step functions as spec
//! functions, so a combinator's behaviour is stated exactly in terms of its
//! parts.

use vstd::prelude::*;

pub mod error;
pub mod interleave;
pub mod recursion;
pub mod sealed;
pub mod seq;

pub use self::error::{Error, InterleaveError, SeqError};
pub use self::interleave::{Interleave, InterleavedMsg};
pub use self::recursion::{
    Recurse, RecurseClaim, RecurseError, RecurseRoundMsg, RecurseWitness, RecursionBridge,
};
pub use self::seq::{Sequence, SeqAdapter, SeqClaim, SeqRoundMsg, SeqWitness};

use crate::field::{values, Field};

verus! {

pub trait ReductionFunctor {
    type Claim: View;
    type Witness: View;
    type RoundMsg: View;
    type Challenge: View;
    type BaseOpening: View;
    type Error: View;

    /// What one prover round returns, on the views of its inputs.
    spec fn spec_prover_step(
        claim: <Self::Claim as View>::V,
        witness: <Self::Witness as View>::V,
        challenge: <Self::Challenge as View>::V,
    ) -> Result<
        ProverStep<
            <Self::Claim as View>::V,
            <Self::Witness as View>::V,
            <Self::RoundMsg as View>::V,
            <Self::BaseOpening as View>::V,
        >,
        <Self::Error as View>::V,
    >;

    /// What one verifier round returns, on the views of its inputs.
    spec fn spec_verifier_step(
        claim: <Self::Claim as View>::V,
        message: <Self::RoundMsg as View>::V,
        challenge: <Self::Challenge as View>::V,
    ) -> Result<
        VerifierStep<<Self::Claim as View>::V, <Self::BaseOpening as View>::V>,
        <Self::Error as View>::V,
    >;

    fn prover_step(
        claim: Self::Claim,
        witness: Self::Witness,
        challenge: Self::Challenge,
    ) -> (r: Result<ProverStep<Self::Claim, Self::Witness, Self::RoundMsg, Self::BaseOpening>, Self::Error>)
        ensures
            result_view(r) == Self::spec_prover_step(claim@, witness@, challenge@);

    fn verifier_step(
        claim: Self::Claim,
        message: Self::RoundMsg,
        challenge: Self::Challenge,
    ) -> (r: Result<VerifierStep<Self::Claim, Self::BaseOpening>, Self::Error>)
        ensures
            result_view(r) == Self::spec_verifier_step(claim@, message@, challenge@);
}

/// A result seen through the views of its two sides.
pub open spec fn result_view<T: View, E: View>(r: Result<T, E>) -> Result<T::V, E::V> {
    match r {
        Ok(t) => Ok(t@),
        Err(e) => Err(e@),
    }
}

/// A value that is absorbed into a Fiat-Shamir transcript as field elements.
pub trait TranscriptSerialize<F: Field>: View {
    /// The values of the elements absorbed for a value with view `m`, in order.
    spec fn spec_field_elements(m: Self::V) -> Seq<int>;

    fn to_field_elements(&self) -> (r: Vec<F>)
        ensures
            values(r@) == Self::spec_field_elements(self@);
}

/// The outcome of a prover round.
pub enum ProverStep<C, W, M, O> {
    Continue(ProverContinue<C, W, M>),
    Done(ProverDone<C, W, O>),
}

pub struct ProverContinue<C, W, M> {
    pub claim: C,
    pub witness: W,
    pub message: M,
}

impl<C, W, M> ProverContinue<C, W, M> {
    pub fn new(claim: C, witness: W, message: M) -> (r: Self)
        ensures
            r.claim == claim,
            r.witness == witness,
            r.message == message,
    {
        Self { claim, witness, message }
    }

    pub fn into_parts(self) -> (r: (C, W, M))
        ensures
            r == (self.claim, self.witness, self.message),
    {
        (self.claim, self.witness, self.message)
    }
}

pub struct ProverDone<C, W, O> {
    pub claim: C,
    pub witness: W,
    pub opening: O,
}

impl<C, W, O> ProverDone<C, W, O> {
    pub fn new(claim: C, witness: W, opening: O) -> (r: Self)
        ensures
            r.claim == claim,
            r.witness == witness,
            r.opening == opening,
    {
        Self { claim, witness, opening }
    }

    pub fn into_parts(self) -> (r: (C, W, O))
        ensures
            r == (self.claim, self.witness, self.opening),
    {
        (self.claim, self.witness, self.opening)
    }
}

impl<C: View, W: View, M: View> View for ProverContinue<C, W, M> {
    type V = ProverContinue<C::V, W::V, M::V>;

    open spec fn view(&self) -> Self::V {
        ProverContinue { claim: self.claim@, witness: self.witness@, message: self.message@ }
    }
}

impl<C: View, W: View, O: View> View for ProverDone<C, W, O> {
    type V = ProverDone<C::V, W::V, O::V>;

    open spec fn view(&self) -> Self::V {
        ProverDone { claim: self.claim@, witness: self.witness@, opening: self.opening@ }
    }
}

impl<C: View, W: View, M: View, O: View> View for ProverStep<C, W, M, O> {
    type V = ProverStep<C::V, W::V, M::V, O::V>;

    open spec fn view(&self) -> Self::V {
        match self {
            ProverStep::Continue(c) => ProverStep::Continue(c@),
            ProverStep::Done(d) => ProverStep::Done(d@),
        }
    }
}

/// The outcome of a verifier round.
pub enum VerifierStep<C, O> {
    Continue(VerifierContinue<C>),
    Done(VerifierDone<C, O>),
}

pub struct VerifierContinue<C> {
    pub claim: C,
}

impl<C> VerifierContinue<C> {
    pub fn new(claim: C) -> (r: Self)
        ensures
            r.claim == claim,
    {
        Self { claim }
    }

    pub fn into_inner(self) -> (r: C)
        ensures
            r == self.claim,
    {
        self.claim
    }
}

pub struct VerifierDone<C, O> {
    pub claim: C,
    pub opening: O,
}

impl<C, O> VerifierDone<C, O> {
    pub fn new(claim: C, opening: O) -> (r: Self)
        ensures
            r.claim == claim,
            r.opening == opening,
    {
        Self { claim, opening }
    }

    pub fn into_parts(self) -> (r: (C, O))
        ensures
            r == (self.claim, self.opening),
    {
        (self.claim, self.opening)
    }
}

impl<C: View> View for VerifierContinue<C> {
    type V = VerifierContinue<C::V>;

    open spec fn view(&self) -> Self::V {
        VerifierContinue { claim: self.claim@ }
    }
}

impl<C: View, O: View> View for VerifierDone<C, O> {
    type V = VerifierDone<C::V, O::V>;

    open spec fn view(&self) -> Self::V {
        VerifierDone { claim: self.claim@, opening: self.opening@ }
    }
}

impl<C: View, O: View> View for VerifierStep<C, O> {
    type V = VerifierStep<C::V, O::V>;

    open spec fn view(&self) -> Self::V {
        match self {
            VerifierStep::Continue(c) => VerifierStep::Continue(c@),
            VerifierStep::Done(d) => VerifierStep::Done(d@),
        }
    }
}

/// Projects a whole claim onto a part and a residue, and back.
pub trait ClaimLens {
    type Whole: View;
    type Part: View;
    type Residue: View;
    type Error: View;

    spec fn spec_split(whole: <Self::Whole as View>::V) -> Result<
        (<Self::Part as View>::V, <Self::Residue as View>::V),
        <Self::Error as View>::V,
    >;

    spec fn spec_join(part: <Self::Part as View>::V, residue: <Self::Residue as View>::V) -> Result<
        <Self::Whole as View>::V,
        <Self::Error as View>::V,
    >;

    fn split(whole: Self::Whole) -> (r: Result<(Self::Part, Self::Residue), Self::Error>)
        ensures
            result_view(r) == Self::spec_split(whole@);

    fn join(part: Self::Part, residue: Self::Residue) -> (r: Result<Self::Whole, Self::Error>)
        ensures
            result_view(r) == Self::spec_join(part@, residue@);

    /// Splits `whole`, joins the parts again, and compares the result with
    /// a clone of `whole`; a failing split or join is returned.
    fn check_join_split(whole: Self::Whole) -> (r: Result<bool, Self::Error>) where
        Self::Whole: Clone + PartialEq,

        ensures
            match Self::spec_split(whole@) {
                Err(e) => r is Err && r->Err_0@ == e,
                Ok((p, q)) => match Self::spec_join(p, q) {
                    Err(e) => r is Err && r->Err_0@ == e,
                    Ok(_) => r is Ok,
                },
            },
    {
        let snapshot = whole.clone();
        let (part, residue) = match Self::split(whole) {
            Ok(pr) => pr,
            Err(e) => return Err(e),
        };
        let rejoined = match Self::join(part, residue) {
            Ok(w) => w,
            Err(e) => return Err(e),
        };
        Ok(rejoined == snapshot)
    }

    /// Joins `part` and `residue`, splits the result again, and compares
    /// both pieces with clones of the inputs; a failing join or split is
    /// returned.
    fn check_split_join(part: Self::Part, residue: Self::Residue) -> (r: Result<bool, Self::Error>) where
        Self::Part: Clone + PartialEq,
        Self::Residue: Clone + PartialEq,

        ensures
            match Self::spec_join(part@, residue@) {
                Err(e) => r is Err && r->Err_0@ == e,
                Ok(w) => match Self::spec_split(w) {
                    Err(e) => r is Err && r->Err_0@ == e,
                    Ok(_) => r is Ok,
                },
            },
    {
        let part_snap = part.clone();
        let residue_snap = residue.clone();
        let whole = match Self::join(part, residue) {
            Ok(w) => w,
            Err(e) => return Err(e),
        };
        let (part2, residue2) = match Self::split(whole) {
            Ok(pr) => pr,
            Err(e) => return Err(e),
        };
        Ok(part2 == part_snap && residue2 == residue_snap)
    }

    /// Join after split gives back the whole.
    proof fn lemma_join_split(whole: <Self::Whole as View>::V)
        ensures
            Self::spec_split(whole) matches Ok((p, r)) ==> Self::spec_join(p, r) == Ok::<
                <Self::Whole as View>::V,
                <Self::Error as View>::V,
            >(whole);

    /// Split after join gives back the part and the residue.
    proof fn lemma_split_join(part: <Self::Part as View>::V, residue: <Self::Residue as View>::V)
        ensures
            Self::spec_join(part, residue) matches Ok(w) ==> Self::spec_split(w) == Ok::<
                (<Self::Part as View>::V, <Self::Residue as View>::V),
                <Self::Error as View>::V,
            >((part, residue));
}

/// The glue of `Interleave`: two reductions over one shared claim and witness.
pub trait ClaimAdapter {
    type A: ReductionFunctor;
    type B: ReductionFunctor;

    type Shared: View;
    type SharedWitness: View;
    type SharedOpening: View;

    type Error: View;

    type LensA: ClaimLens<
        Whole = Self::Shared,
        Part = <Self::A as ReductionFunctor>::Claim,
        Error = Self::Error,
    >;
    type LensB: ClaimLens<
        Whole = Self::Shared,
        Part = <Self::B as ReductionFunctor>::Claim,
        Error = Self::Error,
    >;
    type WLensA: ClaimLens<
        Whole = Self::SharedWitness,
        Part = <Self::A as ReductionFunctor>::Witness,
        Error = Self::Error,
    >;
    type WLensB: ClaimLens<
        Whole = Self::SharedWitness,
        Part = <Self::B as ReductionFunctor>::Witness,
        Error = Self::Error,
    >;

    spec fn spec_combine_openings(
        a: <<Self::A as ReductionFunctor>::BaseOpening as View>::V,
        b: <<Self::B as ReductionFunctor>::BaseOpening as View>::V,
    ) -> Result<<Self::SharedOpening as View>::V, <Self::Error as View>::V>;

    fn combine_openings(
        a: <Self::A as ReductionFunctor>::BaseOpening,
        b: <Self::B as ReductionFunctor>::BaseOpening,
    ) -> (r: Result<Self::SharedOpening, Self::Error>)
        ensures
            result_view(r) == Self::spec_combine_openings(a@, b@);
}

} // verus!
