//! `Sequence`: run one reduction to completion, then hand off to a second.

use std::marker::PhantomData;
use vstd::prelude::*;

use super::error::SeqError;
use super::{
    result_view, ProverContinue, ProverDone, ProverStep, ReductionFunctor, VerifierContinue, VerifierDone,
    VerifierStep,
};

verus! {

/// Connects the end of `A` to the start of `B`.
pub trait SeqAdapter {
    type A: ReductionFunctor;
    type B: ReductionFunctor;
    type Error: View;

    spec fn spec_handoff_claim(
        final_a: <<Self::A as ReductionFunctor>::Claim as View>::V,
        opening_a: <<Self::A as ReductionFunctor>::BaseOpening as View>::V,
    ) -> Result<<<Self::B as ReductionFunctor>::Claim as View>::V, <Self::Error as View>::V>;

    spec fn spec_handoff_witness(
        final_a: <<Self::A as ReductionFunctor>::Witness as View>::V,
    ) -> Result<<<Self::B as ReductionFunctor>::Witness as View>::V, <Self::Error as View>::V>;

    /// Validates A's base-case opening and produces B's initial claim; this
    /// is the verifier's base-case check for A.
    fn handoff_claim(
        final_a: <Self::A as ReductionFunctor>::Claim,
        opening_a: <Self::A as ReductionFunctor>::BaseOpening,
    ) -> (r: Result<<Self::B as ReductionFunctor>::Claim, Self::Error>)
        ensures
            result_view(r) == Self::spec_handoff_claim(final_a@, opening_a@);

    fn handoff_witness(
        final_a: <Self::A as ReductionFunctor>::Witness,
    ) -> (r: Result<<Self::B as ReductionFunctor>::Witness, Self::Error>)
        ensures
            result_view(r) == Self::spec_handoff_witness(final_a@);
}

pub struct Sequence<Ad> {
    _marker: PhantomData<Ad>,
}

pub enum SeqClaim<CA, CB> {
    PhaseA(CA),
    PhaseB(CB),
}

pub enum SeqWitness<WA, WB> {
    PhaseA(WA),
    PhaseB(WB),
}

pub enum SeqRoundMsg<MA, MB, OA> {
    PhaseA(MA),
    Transition(OA),
    PhaseB(MB),
}

impl<CA: View, CB: View> View for SeqClaim<CA, CB> {
    type V = SeqClaim<CA::V, CB::V>;

    open spec fn view(&self) -> Self::V {
        match self {
            SeqClaim::PhaseA(c) => SeqClaim::PhaseA(c@),
            SeqClaim::PhaseB(c) => SeqClaim::PhaseB(c@),
        }
    }
}

impl<WA: View, WB: View> View for SeqWitness<WA, WB> {
    type V = SeqWitness<WA::V, WB::V>;

    open spec fn view(&self) -> Self::V {
        match self {
            SeqWitness::PhaseA(w) => SeqWitness::PhaseA(w@),
            SeqWitness::PhaseB(w) => SeqWitness::PhaseB(w@),
        }
    }
}

impl<MA: View, MB: View, OA: View> View for SeqRoundMsg<MA, MB, OA> {
    type V = SeqRoundMsg<MA::V, MB::V, OA::V>;

    open spec fn view(&self) -> Self::V {
        match self {
            SeqRoundMsg::PhaseA(m) => SeqRoundMsg::PhaseA(m@),
            SeqRoundMsg::Transition(o) => SeqRoundMsg::Transition(o@),
            SeqRoundMsg::PhaseB(m) => SeqRoundMsg::PhaseB(m@),
        }
    }
}

impl<Ad: SeqAdapter> ReductionFunctor for Sequence<Ad> where
    <Ad::A as ReductionFunctor>::BaseOpening: Copy,
    Ad::B: ReductionFunctor<Challenge = <Ad::A as ReductionFunctor>::Challenge>,
 {
    type Claim = SeqClaim<<Ad::A as ReductionFunctor>::Claim, <Ad::B as ReductionFunctor>::Claim>;
    type Witness = SeqWitness<
        <Ad::A as ReductionFunctor>::Witness,
        <Ad::B as ReductionFunctor>::Witness,
    >;
    type RoundMsg = SeqRoundMsg<
        <Ad::A as ReductionFunctor>::RoundMsg,
        <Ad::B as ReductionFunctor>::RoundMsg,
        <Ad::A as ReductionFunctor>::BaseOpening,
    >;
    type Challenge = <Ad::A as ReductionFunctor>::Challenge;
    type BaseOpening = <Ad::B as ReductionFunctor>::BaseOpening;
    type Error = SeqError<
        <Ad::A as ReductionFunctor>::Error,
        <Ad::B as ReductionFunctor>::Error,
        Ad::Error,
    >;

    /// In phase A, A steps; when A finishes, its opening is handed off and
    /// sent as the `Transition` message, and the claim moves to phase B.  In
    /// phase B, B steps and its termination ends the composition.  A claim
    /// and witness in different phases are `PhaseDesync`.
    open spec fn spec_prover_step(
        claim: <Self::Claim as View>::V,
        witness: <Self::Witness as View>::V,
        challenge: <Self::Challenge as View>::V,
    ) -> Result<
        ProverStep<
            <Self::Claim as View>::V,
            <Self::Witness as View>::V,
            <Self::RoundMsg as View>::V,
            <Self::BaseOpening as View>::V,
        >,
        <Self::Error as View>::V,
    > {
        match (claim, witness) {
            (SeqClaim::PhaseA(ca), SeqWitness::PhaseA(wa)) => match Ad::A::spec_prover_step(
                ca,
                wa,
                challenge,
            ) {
                Err(e) => Err(SeqError::InA(e)),
                Ok(ProverStep::Continue(c)) => Ok(ProverStep::Continue(ProverContinue {
                    claim: SeqClaim::PhaseA(c.claim),
                    witness: SeqWitness::PhaseA(c.witness),
                    message: SeqRoundMsg::PhaseA(c.message),
                })),
                Ok(ProverStep::Done(d)) => match Ad::spec_handoff_claim(d.claim, d.opening) {
                    Err(e) => Err(SeqError::Handoff(e)),
                    Ok(cb) => match Ad::spec_handoff_witness(d.witness) {
                        Err(e) => Err(SeqError::Handoff(e)),
                        Ok(wb) => Ok(ProverStep::Continue(ProverContinue {
                            claim: SeqClaim::PhaseB(cb),
                            witness: SeqWitness::PhaseB(wb),
                            message: SeqRoundMsg::Transition(d.opening),
                        })),
                    },
                },
            },
            (SeqClaim::PhaseB(cb), SeqWitness::PhaseB(wb)) => match Ad::B::spec_prover_step(
                cb,
                wb,
                challenge,
            ) {
                Err(e) => Err(SeqError::InB(e)),
                Ok(ProverStep::Continue(c)) => Ok(ProverStep::Continue(ProverContinue {
                    claim: SeqClaim::PhaseB(c.claim),
                    witness: SeqWitness::PhaseB(c.witness),
                    message: SeqRoundMsg::PhaseB(c.message),
                })),
                Ok(ProverStep::Done(d)) => Ok(ProverStep::Done(ProverDone {
                    claim: SeqClaim::PhaseB(d.claim),
                    witness: SeqWitness::PhaseB(d.witness),
                    opening: d.opening,
                })),
            },
            _ => Err(SeqError::PhaseDesync),
        }
    }

    /// A phase-A message is checked by A (which must not finish); the
    /// `Transition` message runs the handoff; phase-B messages are checked
    /// by B, whose termination ends the composition.
    open spec fn spec_verifier_step(
        claim: <Self::Claim as View>::V,
        message: <Self::RoundMsg as View>::V,
        challenge: <Self::Challenge as View>::V,
    ) -> Result<
        VerifierStep<<Self::Claim as View>::V, <Self::BaseOpening as View>::V>,
        <Self::Error as View>::V,
    > {
        match (claim, message) {
            (SeqClaim::PhaseA(ca), SeqRoundMsg::PhaseA(ma)) => match Ad::A::spec_verifier_step(
                ca,
                ma,
                challenge,
            ) {
                Err(e) => Err(SeqError::InA(e)),
                Ok(VerifierStep::Continue(c)) => Ok(
                    VerifierStep::Continue(VerifierContinue { claim: SeqClaim::PhaseA(c.claim) }),
                ),
                Ok(VerifierStep::Done(_)) => Err(SeqError::PhaseDesync),
            },
            (SeqClaim::PhaseA(ca), SeqRoundMsg::Transition(oa)) => match Ad::spec_handoff_claim(
                ca,
                oa,
            ) {
                Err(e) => Err(SeqError::Handoff(e)),
                Ok(cb) => Ok(VerifierStep::Continue(VerifierContinue { claim: SeqClaim::PhaseB(cb) })),
            },
            (SeqClaim::PhaseB(cb), SeqRoundMsg::PhaseB(mb)) => match Ad::B::spec_verifier_step(
                cb,
                mb,
                challenge,
            ) {
                Err(e) => Err(SeqError::InB(e)),
                Ok(VerifierStep::Continue(c)) => Ok(
                    VerifierStep::Continue(VerifierContinue { claim: SeqClaim::PhaseB(c.claim) }),
                ),
                Ok(VerifierStep::Done(d)) => Ok(
                    VerifierStep::Done(VerifierDone { claim: SeqClaim::PhaseB(d.claim), opening: d.opening }),
                ),
            },
            _ => Err(SeqError::PhaseDesync),
        }
    }

    fn prover_step(
        claim: Self::Claim,
        witness: Self::Witness,
        challenge: Self::Challenge,
    ) -> (r: Result<ProverStep<Self::Claim, Self::Witness, Self::RoundMsg, Self::BaseOpening>, Self::Error>) {
        match (claim, witness) {
            (SeqClaim::PhaseA(ca), SeqWitness::PhaseA(wa)) => {
                match Ad::A::prover_step(ca, wa, challenge) {
                    Err(e) => Err(SeqError::InA(e)),
                    Ok(ProverStep::Continue(c)) => {
                        let (ca2, wa2, ma) = c.into_parts();
                        Ok(
                            ProverStep::Continue(
                                ProverContinue::new(
                                    SeqClaim::PhaseA(ca2),
                                    SeqWitness::PhaseA(wa2),
                                    SeqRoundMsg::PhaseA(ma),
                                ),
                            ),
                        )
                    },
                    Ok(ProverStep::Done(d)) => {
                        let (ca_final, wa_final, oa) = d.into_parts();
                        let oa_msg = oa;
                        let cb = match Ad::handoff_claim(ca_final, oa) {
                            Ok(cb) => cb,
                            Err(e) => return Err(SeqError::Handoff(e)),
                        };
                        let wb = match Ad::handoff_witness(wa_final) {
                            Ok(wb) => wb,
                            Err(e) => return Err(SeqError::Handoff(e)),
                        };
                        Ok(
                            ProverStep::Continue(
                                ProverContinue::new(
                                    SeqClaim::PhaseB(cb),
                                    SeqWitness::PhaseB(wb),
                                    SeqRoundMsg::Transition(oa_msg),
                                ),
                            ),
                        )
                    },
                }
            },
            (SeqClaim::PhaseB(cb), SeqWitness::PhaseB(wb)) => {
                match Ad::B::prover_step(cb, wb, challenge) {
                    Err(e) => Err(SeqError::InB(e)),
                    Ok(ProverStep::Continue(c)) => {
                        let (cb2, wb2, mb) = c.into_parts();
                        Ok(
                            ProverStep::Continue(
                                ProverContinue::new(
                                    SeqClaim::PhaseB(cb2),
                                    SeqWitness::PhaseB(wb2),
                                    SeqRoundMsg::PhaseB(mb),
                                ),
                            ),
                        )
                    },
                    Ok(ProverStep::Done(d)) => {
                        let (cb_final, wb_final, ob) = d.into_parts();
                        Ok(
                            ProverStep::Done(
                                ProverDone::new(
                                    SeqClaim::PhaseB(cb_final),
                                    SeqWitness::PhaseB(wb_final),
                                    ob,
                                ),
                            ),
                        )
                    },
                }
            },
            (SeqClaim::PhaseA(_), SeqWitness::PhaseB(_)) => Err(SeqError::PhaseDesync),
            (SeqClaim::PhaseB(_), SeqWitness::PhaseA(_)) => Err(SeqError::PhaseDesync),
        }
    }

    fn verifier_step(
        claim: Self::Claim,
        message: Self::RoundMsg,
        challenge: Self::Challenge,
    ) -> (r: Result<VerifierStep<Self::Claim, Self::BaseOpening>, Self::Error>) {
        match (claim, message) {
            (SeqClaim::PhaseA(ca), SeqRoundMsg::PhaseA(ma)) => {
                match Ad::A::verifier_step(ca, ma, challenge) {
                    Err(e) => Err(SeqError::InA(e)),
                    Ok(VerifierStep::Continue(c)) => Ok(
                        VerifierStep::Continue(VerifierContinue::new(SeqClaim::PhaseA(c.into_inner()))),
                    ),
                    Ok(VerifierStep::Done(_)) => Err(SeqError::PhaseDesync),
                }
            },
            (SeqClaim::PhaseA(ca), SeqRoundMsg::Transition(oa)) => {
                match Ad::handoff_claim(ca, oa) {
                    Err(e) => Err(SeqError::Handoff(e)),
                    Ok(cb) => Ok(VerifierStep::Continue(VerifierContinue::new(SeqClaim::PhaseB(cb)))),
                }
            },
            (SeqClaim::PhaseB(cb), SeqRoundMsg::PhaseB(mb)) => {
                match Ad::B::verifier_step(cb, mb, challenge) {
                    Err(e) => Err(SeqError::InB(e)),
                    Ok(VerifierStep::Continue(c)) => Ok(
                        VerifierStep::Continue(VerifierContinue::new(SeqClaim::PhaseB(c.into_inner()))),
                    ),
                    Ok(VerifierStep::Done(d)) => {
                        let (cb_final, ob) = d.into_parts();
                        Ok(VerifierStep::Done(VerifierDone::new(SeqClaim::PhaseB(cb_final), ob)))
                    },
                }
            },
            (SeqClaim::PhaseA(_), SeqRoundMsg::PhaseB(_)) => Err(SeqError::PhaseDesync),
            (SeqClaim::PhaseB(_), SeqRoundMsg::PhaseA(_)) => Err(SeqError::PhaseDesync),
            (SeqClaim::PhaseB(_), SeqRoundMsg::Transition(_)) => Err(SeqError::PhaseDesync),
        }
    }
}

} // verus!
