//! The verifier driver: for each message, squeeze a challenge, absorb the
//! message, and run a verifier round; the reduction must be done exactly on
//! the last message.

use vstd::prelude::*;
use vstd::pervasive::strictly_cloned;

use crate::prover::{absorb_msg, msg_views};
use crate::reduce::{ReductionFunctor, TranscriptSerialize, VerifierStep};
use crate::transcript::{absorb_all, Transcript};

verus! {

/// Failures of the verifier driver.
#[derive(Debug)]
pub enum Error<RE> {
    Reduction(RE),
    UnexpectedDone { round: usize },
    ProtocolNotDone { messages_consumed: usize },
}

impl<RE: View> View for Error<RE> {
    type V = Error<RE::V>;

    open spec fn view(&self) -> Error<RE::V> {
        match self {
            Error::Reduction(e) => Error::Reduction(e@),
            Error::UnexpectedDone { round } => Error::UnexpectedDone { round: *round },
            Error::ProtocolNotDone { messages_consumed } => Error::ProtocolNotDone {
                messages_consumed: *messages_consumed,
            },
        }
    }
}

/// The outcome of an accepted proof: the final opening.
#[derive(Debug)]
pub enum Verdict<O> {
    Accept(O),
}

impl<O: View> View for Verdict<O> {
    type V = Verdict<O::V>;

    open spec fn view(&self) -> Verdict<O::V> {
        match self {
            Verdict::Accept(o) => Verdict::Accept(o@),
        }
    }
}

/// What the driver returns from `claim` and transcript `t` with the
/// messages `msgs[round..]` left: the opening and the final transcript.
pub open spec fn spec_verify_rec<R, T>(
    claim: <R::Claim as View>::V,
    msgs: Seq<<R::RoundMsg as View>::V>,
    t: T::V,
    round: nat,
) -> Result<(<R::BaseOpening as View>::V, T::V), Error<<R::Error as View>::V>>
    where
        R: ReductionFunctor<Challenge = T::F>,
        R::RoundMsg: TranscriptSerialize<T::F>,
        T: Transcript,
    decreases msgs.len() - round,
{
    if round >= msgs.len() {
        Err(Error::ProtocolNotDone { messages_consumed: round as usize })
    } else {
        let (t2, challenge) = T::spec_squeeze(t);
        let msg = msgs[round as int];
        let t3 = absorb_all::<T>(t2, <R::RoundMsg as TranscriptSerialize<T::F>>::spec_field_elements(msg));
        match R::spec_verifier_step(claim, msg, challenge) {
            Err(e) => Err(Error::Reduction(e)),
            Ok(VerifierStep::Continue(c)) => spec_verify_rec::<R, T>(c.claim, msgs, t3, round + 1),
            Ok(VerifierStep::Done(d)) => if round + 1 == msgs.len() {
                Ok((d.opening, t3))
            } else {
                Err(Error::UnexpectedDone { round: round as usize })
            },
        }
    }
}

/// A driver result seen through views.
pub open spec fn verdict_result_view<O: View, T: View, E: View>(
    r: Result<(Verdict<O>, T), Error<E>>,
) -> Result<(O::V, T::V), Error<E::V>> {
    match r {
        Ok((Verdict::Accept(o), t)) => Ok((o@, t@)),
        Err(e) => Err(e@),
    }
}

/// Checks `messages` against `claim`, drawing each challenge from the
/// transcript as the prover did; a message's clone must keep its view.
pub fn verify<R, T>(claim: R::Claim, messages: &[R::RoundMsg], transcript: T) -> (r: Result<
    (Verdict<R::BaseOpening>, T),
    Error<R::Error>,
>) where
    R: ReductionFunctor<Challenge = T::F>,
    R::RoundMsg: Clone + TranscriptSerialize<T::F>,
    T: Transcript,

    requires
        forall|a: R::RoundMsg, b: R::RoundMsg| #[trigger] strictly_cloned(a, b) ==> b@ == a@,
    ensures
        verdict_result_view(r) == spec_verify_rec::<R, T>(claim@, msg_views(messages@), transcript@, 0),
{
    verify_rec::<R, T>(claim, messages, transcript, 0)
}

fn verify_rec<R, T>(claim: R::Claim, messages: &[R::RoundMsg], transcript: T, round: usize) -> (r: Result<
    (Verdict<R::BaseOpening>, T),
    Error<R::Error>,
>) where
    R: ReductionFunctor<Challenge = T::F>,
    R::RoundMsg: Clone + TranscriptSerialize<T::F>,
    T: Transcript,

    requires
        round <= messages@.len(),
        forall|a: R::RoundMsg, b: R::RoundMsg| #[trigger] strictly_cloned(a, b) ==> b@ == a@,
    ensures
        verdict_result_view(r) == spec_verify_rec::<R, T>(claim@, msg_views(messages@), transcript@, round as nat),
    decreases messages@.len() - round,
{
    if round >= messages.len() {
        return Err(Error::ProtocolNotDone { messages_consumed: round });
    }
    let msg = &messages[round];
    let (t2, challenge) = transcript.squeeze();
    let t3 = absorb_msg::<T, R::RoundMsg>(t2, msg);
    let owned = msg.clone();
    proof {
        assert(strictly_cloned(*msg, owned));
        assert(msg_views(messages@)[round as int] == msg@);
    }
    match R::verifier_step(claim, owned, challenge) {
        Err(e) => Err(Error::Reduction(e)),
        Ok(VerifierStep::Continue(c)) => verify_rec::<R, T>(c.into_inner(), messages, t3, round + 1),
        Ok(VerifierStep::Done(d)) => {
            if round + 1 == messages.len() {
                let (_c_final, opening) = d.into_parts();
                Ok((Verdict::Accept(opening), t3))
            } else {
                Err(Error::UnexpectedDone { round })
            }
        },
    }
}

} // verus!
