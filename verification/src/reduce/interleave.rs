//! `Interleave`: two reductions driven in lock-step by one shared challenge.

use std::marker::PhantomData;
use vstd::prelude::*;

use super::error::InterleaveError;
use crate::field::{values, Field};
use super::{
    ClaimAdapter, TranscriptSerialize, ClaimLens, ProverContinue, ProverDone, ProverStep, ReductionFunctor,
    VerifierContinue, VerifierDone, VerifierStep,
};

verus! {

/// Runs `Ad::A` and then `Ad::B` on the same challenge in every round.
pub struct Interleave<Ad> {
    _marker: PhantomData<Ad>,
}

/// The pair of round messages of one interleaved round.
#[derive(Debug, Clone, PartialEq, Eq)]
pub struct InterleavedMsg<MA, MB> {
    pub msg_a: MA,
    pub msg_b: MB,
}

impl<MA, MB> InterleavedMsg<MA, MB> {
    pub fn new(msg_a: MA, msg_b: MB) -> (r: Self)
        ensures
            r.msg_a == msg_a,
            r.msg_b == msg_b,
    {
        Self { msg_a, msg_b }
    }

    pub fn into_parts(self) -> (r: (MA, MB))
        ensures
            r == (self.msg_a, self.msg_b),
    {
        (self.msg_a, self.msg_b)
    }
}

impl<MA: View, MB: View> View for InterleavedMsg<MA, MB> {
    type V = InterleavedMsg<MA::V, MB::V>;

    open spec fn view(&self) -> Self::V {
        InterleavedMsg { msg_a: self.msg_a@, msg_b: self.msg_b@ }
    }
}

/// A pair of messages is absorbed as the first message's elements followed
/// by the second's.
impl<F: Field, MA: TranscriptSerialize<F>, MB: TranscriptSerialize<F>> TranscriptSerialize<F> for InterleavedMsg<
    MA,
    MB,
> {
    open spec fn spec_field_elements(m: InterleavedMsg<MA::V, MB::V>) -> Seq<int> {
        MA::spec_field_elements(m.msg_a) + MB::spec_field_elements(m.msg_b)
    }

    fn to_field_elements(&self) -> (r: Vec<F>) {
        let mut out = self.msg_a.to_field_elements();
        let b = self.msg_b.to_field_elements();
        let ghost a_vals = values(out@);
        let mut i: usize = 0;
        while i < b.len()
            invariant
                i <= b@.len(),
                values(out@) == a_vals + values(b@).take(i as int),
            decreases b@.len() - i,
        {
            let ghost old = out@;
            out.push(b[i]);
            proof {
                assert(values(out@) =~= values(old).push(b@[i as int]@));
                assert(values(b@).take(i + 1) =~= values(b@).take(i as int).push(b@[i as int]@));
                assert(a_vals + values(b@).take(i + 1) =~= (a_vals + values(b@).take(i as int)).push(b@[i as int]@));
            }
            i = i + 1;
        }
        proof {
            assert(values(b@).take(i as int) =~= values(b@));
        }
        out
    }
}

impl<Ad> ReductionFunctor for Interleave<Ad> where
    Ad: ClaimAdapter,
    <Ad::A as ReductionFunctor>::Challenge: Copy,
    Ad::B: ReductionFunctor<Challenge = <Ad::A as ReductionFunctor>::Challenge>,
 {
    type Claim = Ad::Shared;
    type Witness = Ad::SharedWitness;
    type RoundMsg = InterleavedMsg<
        <Ad::A as ReductionFunctor>::RoundMsg,
        <Ad::B as ReductionFunctor>::RoundMsg,
    >;
    type Challenge = <Ad::A as ReductionFunctor>::Challenge;
    type BaseOpening = Ad::SharedOpening;
    type Error = InterleaveError<
        <Ad::A as ReductionFunctor>::Error,
        <Ad::B as ReductionFunctor>::Error,
        Ad::Error,
    >;

    /// A steps on its projection of the shared claim and witness, its result
    /// is joined back, then B steps on its projection with the same challenge.
    /// Both must continue (messages paired) or both finish (openings
    /// combined); anything else is `DoneDesync`.
    open spec fn spec_prover_step(
        claim: <Self::Claim as View>::V,
        witness: <Self::Witness as View>::V,
        challenge: <Self::Challenge as View>::V,
    ) -> Result<
        ProverStep<
            <Self::Claim as View>::V,
            <Self::Witness as View>::V,
            <Self::RoundMsg as View>::V,
            <Self::BaseOpening as View>::V,
        >,
        <Self::Error as View>::V,
    > {
        match Ad::LensA::spec_split(claim) {
            Err(e) => Err(InterleaveError::Adapter(e)),
            Ok((ca, res_a)) => match Ad::WLensA::spec_split(witness) {
                Err(e) => Err(InterleaveError::Adapter(e)),
                Ok((wa, wres_a)) => match Ad::A::spec_prover_step(ca, wa, challenge) {
                    Err(e) => Err(InterleaveError::InA(e)),
                    Ok(step_a) => {
                        let (ca2, wa2) = match step_a {
                            ProverStep::Continue(c) => (c.claim, c.witness),
                            ProverStep::Done(d) => (d.claim, d.witness),
                        };
                        match Ad::LensA::spec_join(ca2, res_a) {
                            Err(e) => Err(InterleaveError::Adapter(e)),
                            Ok(mid) => match Ad::WLensA::spec_join(wa2, wres_a) {
                                Err(e) => Err(InterleaveError::Adapter(e)),
                                Ok(wmid) => match Ad::LensB::spec_split(mid) {
                                    Err(e) => Err(InterleaveError::Adapter(e)),
                                    Ok((cb, res_b)) => match Ad::WLensB::spec_split(wmid) {
                                        Err(e) => Err(InterleaveError::Adapter(e)),
                                        Ok((wb, wres_b)) => match Ad::B::spec_prover_step(cb, wb, challenge) {
                                            Err(e) => Err(InterleaveError::InB(e)),
                                            Ok(step_b) => match (step_a, step_b) {
                                                (ProverStep::Continue(ka), ProverStep::Continue(kb)) => {
                                                    match Ad::LensB::spec_join(kb.claim, res_b) {
                                                        Err(e) => Err(InterleaveError::Adapter(e)),
                                                        Ok(fc) => match Ad::WLensB::spec_join(kb.witness, wres_b) {
                                                            Err(e) => Err(InterleaveError::Adapter(e)),
                                                            Ok(fw) => Ok(ProverStep::Continue(ProverContinue {
                                                                claim: fc,
                                                                witness: fw,
                                                                message: InterleavedMsg { msg_a: ka.message, msg_b: kb.message },
                                                            })),
                                                        },
                                                    }
                                                },
                                                (ProverStep::Done(da), ProverStep::Done(db)) => {
                                                    match Ad::LensB::spec_join(db.claim, res_b) {
                                                        Err(e) => Err(InterleaveError::Adapter(e)),
                                                        Ok(fc) => match Ad::WLensB::spec_join(db.witness, wres_b) {
                                                            Err(e) => Err(InterleaveError::Adapter(e)),
                                                            Ok(fw) => match Ad::spec_combine_openings(da.opening, db.opening) {
                                                                Err(e) => Err(InterleaveError::Adapter(e)),
                                                                Ok(o) => Ok(ProverStep::Done(ProverDone {
                                                                    claim: fc,
                                                                    witness: fw,
                                                                    opening: o,
                                                                })),
                                                            },
                                                        },
                                                    }
                                                },
                                                _ => Err(InterleaveError::DoneDesync),
                                            },
                                        },
                                    },
                                },
                            },
                        }
                    },
                },
            },
        }
    }

    /// The verifier mirror of `spec_prover_step`, without witnesses.
    open spec fn spec_verifier_step(
        claim: <Self::Claim as View>::V,
        message: <Self::RoundMsg as View>::V,
        challenge: <Self::Challenge as View>::V,
    ) -> Result<
        VerifierStep<<Self::Claim as View>::V, <Self::BaseOpening as View>::V>,
        <Self::Error as View>::V,
    > {
        match Ad::LensA::spec_split(claim) {
            Err(e) => Err(InterleaveError::Adapter(e)),
            Ok((ca, res_a)) => match Ad::A::spec_verifier_step(ca, message.msg_a, challenge) {
                Err(e) => Err(InterleaveError::InA(e)),
                Ok(step_a) => {
                    let ca2 = match step_a {
                        VerifierStep::Continue(c) => c.claim,
                        VerifierStep::Done(d) => d.claim,
                    };
                    match Ad::LensA::spec_join(ca2, res_a) {
                        Err(e) => Err(InterleaveError::Adapter(e)),
                        Ok(mid) => match Ad::LensB::spec_split(mid) {
                            Err(e) => Err(InterleaveError::Adapter(e)),
                            Ok((cb, res_b)) => match Ad::B::spec_verifier_step(cb, message.msg_b, challenge) {
                                Err(e) => Err(InterleaveError::InB(e)),
                                Ok(step_b) => match (step_a, step_b) {
                                    (VerifierStep::Continue(_), VerifierStep::Continue(kb)) => {
                                        match Ad::LensB::spec_join(kb.claim, res_b) {
                                            Err(e) => Err(InterleaveError::Adapter(e)),
                                            Ok(fc) => Ok(VerifierStep::Continue(VerifierContinue { claim: fc })),
                                        }
                                    },
                                    (VerifierStep::Done(da), VerifierStep::Done(db)) => {
                                        match Ad::LensB::spec_join(db.claim, res_b) {
                                            Err(e) => Err(InterleaveError::Adapter(e)),
                                            Ok(fc) => match Ad::spec_combine_openings(da.opening, db.opening) {
                                                Err(e) => Err(InterleaveError::Adapter(e)),
                                                Ok(o) => Ok(VerifierStep::Done(VerifierDone { claim: fc, opening: o })),
                                            },
                                        }
                                    },
                                    _ => Err(InterleaveError::DoneDesync),
                                },
                            },
                        },
                    }
                },
            },
        }
    }

    fn prover_step(
        claim: Self::Claim,
        witness: Self::Witness,
        challenge: Self::Challenge,
    ) -> (r: Result<ProverStep<Self::Claim, Self::Witness, Self::RoundMsg, Self::BaseOpening>, Self::Error>) {
        let (ca, res_a) = match Ad::LensA::split(claim) {
            Ok(p) => p,
            Err(e) => return Err(InterleaveError::Adapter(e)),
        };
        let (wa, wres_a) = match Ad::WLensA::split(witness) {
            Ok(p) => p,
            Err(e) => return Err(InterleaveError::Adapter(e)),
        };
        let step_a = match Ad::A::prover_step(ca, wa, challenge) {
            Ok(s) => s,
            Err(e) => return Err(InterleaveError::InA(e)),
        };
        match step_a {
            ProverStep::Continue(cont_a) => {
                let (ca2, wa2, msg_a) = cont_a.into_parts();
                let mid = match Ad::LensA::join(ca2, res_a) {
                    Ok(m) => m,
                    Err(e) => return Err(InterleaveError::Adapter(e)),
                };
                let wmid = match Ad::WLensA::join(wa2, wres_a) {
                    Ok(m) => m,
                    Err(e) => return Err(InterleaveError::Adapter(e)),
                };
                let (cb, res_b) = match Ad::LensB::split(mid) {
                    Ok(p) => p,
                    Err(e) => return Err(InterleaveError::Adapter(e)),
                };
                let (wb, wres_b) = match Ad::WLensB::split(wmid) {
                    Ok(p) => p,
                    Err(e) => return Err(InterleaveError::Adapter(e)),
                };
                let step_b = match Ad::B::prover_step(cb, wb, challenge) {
                    Ok(s) => s,
                    Err(e) => return Err(InterleaveError::InB(e)),
                };
                match step_b {
                    ProverStep::Continue(cont_b) => {
                        let (cb2, wb2, msg_b) = cont_b.into_parts();
                        let final_claim = match Ad::LensB::join(cb2, res_b) {
                            Ok(c) => c,
                            Err(e) => return Err(InterleaveError::Adapter(e)),
                        };
                        let final_witness = match Ad::WLensB::join(wb2, wres_b) {
                            Ok(w) => w,
                            Err(e) => return Err(InterleaveError::Adapter(e)),
                        };
                        Ok(
                            ProverStep::Continue(
                                ProverContinue::new(
                                    final_claim,
                                    final_witness,
                                    InterleavedMsg::new(msg_a, msg_b),
                                ),
                            ),
                        )
                    },
                    ProverStep::Done(_) => Err(InterleaveError::DoneDesync),
                }
            },
            ProverStep::Done(done_a) => {
                let (ca_final, wa_final, oa) = done_a.into_parts();
                let mid = match Ad::LensA::join(ca_final, res_a) {
                    Ok(m) => m,
                    Err(e) => return Err(InterleaveError::Adapter(e)),
                };
                let wmid = match Ad::WLensA::join(wa_final, wres_a) {
                    Ok(m) => m,
                    Err(e) => return Err(InterleaveError::Adapter(e)),
                };
                let (cb, res_b) = match Ad::LensB::split(mid) {
                    Ok(p) => p,
                    Err(e) => return Err(InterleaveError::Adapter(e)),
                };
                let (wb, wres_b) = match Ad::WLensB::split(wmid) {
                    Ok(p) => p,
                    Err(e) => return Err(InterleaveError::Adapter(e)),
                };
                let step_b = match Ad::B::prover_step(cb, wb, challenge) {
                    Ok(s) => s,
                    Err(e) => return Err(InterleaveError::InB(e)),
                };
                match step_b {
                    ProverStep::Continue(_) => Err(InterleaveError::DoneDesync),
                    ProverStep::Done(done_b) => {
                        let (cb_final, wb_final, ob) = done_b.into_parts();
                        let final_claim = match Ad::LensB::join(cb_final, res_b) {
                            Ok(c) => c,
                            Err(e) => return Err(InterleaveError::Adapter(e)),
                        };
                        let final_witness = match Ad::WLensB::join(wb_final, wres_b) {
                            Ok(w) => w,
                            Err(e) => return Err(InterleaveError::Adapter(e)),
                        };
                        let opening = match Ad::combine_openings(oa, ob) {
                            Ok(o) => o,
                            Err(e) => return Err(InterleaveError::Adapter(e)),
                        };
                        Ok(ProverStep::Done(ProverDone::new(final_claim, final_witness, opening)))
                    },
                }
            },
        }
    }

    fn verifier_step(
        claim: Self::Claim,
        message: Self::RoundMsg,
        challenge: Self::Challenge,
    ) -> (r: Result<VerifierStep<Self::Claim, Self::BaseOpening>, Self::Error>) {
        let (msg_a, msg_b) = message.into_parts();
        let (ca, res_a) = match Ad::LensA::split(claim) {
            Ok(p) => p,
            Err(e) => return Err(InterleaveError::Adapter(e)),
        };
        let step_a = match Ad::A::verifier_step(ca, msg_a, challenge) {
            Ok(s) => s,
            Err(e) => return Err(InterleaveError::InA(e)),
        };
        match step_a {
            VerifierStep::Continue(cont_a) => {
                let mid = match Ad::LensA::join(cont_a.into_inner(), res_a) {
                    Ok(m) => m,
                    Err(e) => return Err(InterleaveError::Adapter(e)),
                };
                let (cb, res_b) = match Ad::LensB::split(mid) {
                    Ok(p) => p,
                    Err(e) => return Err(InterleaveError::Adapter(e)),
                };
                let step_b = match Ad::B::verifier_step(cb, msg_b, challenge) {
                    Ok(s) => s,
                    Err(e) => return Err(InterleaveError::InB(e)),
                };
                match step_b {
                    VerifierStep::Continue(cont_b) => {
                        let final_claim = match Ad::LensB::join(cont_b.into_inner(), res_b) {
                            Ok(c) => c,
                            Err(e) => return Err(InterleaveError::Adapter(e)),
                        };
                        Ok(VerifierStep::Continue(VerifierContinue::new(final_claim)))
                    },
                    VerifierStep::Done(_) => Err(InterleaveError::DoneDesync),
                }
            },
            VerifierStep::Done(done_a) => {
                let (ca_final, oa) = done_a.into_parts();
                let mid = match Ad::LensA::join(ca_final, res_a) {
                    Ok(m) => m,
                    Err(e) => return Err(InterleaveError::Adapter(e)),
                };
                let (cb, res_b) = match Ad::LensB::split(mid) {
                    Ok(p) => p,
                    Err(e) => return Err(InterleaveError::Adapter(e)),
                };
                let step_b = match Ad::B::verifier_step(cb, msg_b, challenge) {
                    Ok(s) => s,
                    Err(e) => return Err(InterleaveError::InB(e)),
                };
                match step_b {
                    VerifierStep::Continue(_) => Err(InterleaveError::DoneDesync),
                    VerifierStep::Done(done_b) => {
                        let (cb_final, ob) = done_b.into_parts();
                        let final_claim = match Ad::LensB::join(cb_final, res_b) {
                            Ok(c) => c,
                            Err(e) => return Err(InterleaveError::Adapter(e)),
                        };
                        let opening = match Ad::combine_openings(oa, ob) {
                            Ok(o) => o,
                            Err(e) => return Err(InterleaveError::Adapter(e)),
                        };
                        Ok(VerifierStep::Done(VerifierDone::new(final_claim, opening)))
                    },
                }
            },
        }
    }
}

} // verus!
