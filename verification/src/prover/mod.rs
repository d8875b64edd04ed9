//! The prover driver: squeeze a challenge, run a prover round, absorb its
//! message, and repeat until the reduction is done.

use vstd::prelude::*;

use crate::reduce::{ProverStep, ReductionFunctor, TranscriptSerialize};
use crate::transcript::{absorb_all, Transcript};

verus! {

/// Failures of the prover driver.
#[derive(Debug)]
pub enum Error<RE> {
    Reduction(RE),
    MaxRoundsExceeded { limit: usize },
}

impl<RE: View> View for Error<RE> {
    type V = Error<RE::V>;

    open spec fn view(&self) -> Error<RE::V> {
        match self {
            Error::Reduction(e) => Error::Reduction(e@),
            Error::MaxRoundsExceeded { limit } => Error::MaxRoundsExceeded { limit: *limit },
        }
    }
}

/// The round messages and the final opening.
#[derive(Debug)]
pub struct Proof<M, O> {
    messages: Vec<M>,
    opening: O,
}

/// The views of a list of messages.
pub open spec fn msg_views<M: View>(s: Seq<M>) -> Seq<M::V> {
    s.map_values(|m: M| m@)
}

impl<M: View, O: View> View for Proof<M, O> {
    type V = (Seq<M::V>, O::V);

    closed spec fn view(&self) -> (Seq<M::V>, O::V) {
        (msg_views(self.messages@), self.opening@)
    }
}

impl<M: View, O: View> Proof<M, O> {
    pub fn new(messages: Vec<M>, opening: O) -> (r: Self)
        ensures
            r@ == (msg_views(messages@), opening@),
    {
        Self { messages, opening }
    }

    pub fn messages(&self) -> (r: &[M])
        ensures
            msg_views(r@) == self@.0,
    {
        self.messages.as_slice()
    }

    pub fn opening(&self) -> (r: &O)
        ensures
            r@ == self@.1,
    {
        &self.opening
    }

    pub fn into_parts(self) -> (r: (Vec<M>, O))
        ensures
            msg_views(r.0@) == self@.0,
            r.1@ == self@.1,
    {
        (self.messages, self.opening)
    }
}

/// The most rounds the driver runs before giving up.
pub const MAX_ROUNDS: usize = 1024;

/// What the driver returns from a claim, witness and transcript, with the
/// messages `collected` so far and `rounds_left` rounds allowed: the
/// messages, the opening and the final transcript.
pub open spec fn spec_prove_rec<R, T>(
    claim: <R::Claim as View>::V,
    witness: <R::Witness as View>::V,
    t: T::V,
    collected: Seq<<R::RoundMsg as View>::V>,
    rounds_left: nat,
) -> Result<(Seq<<R::RoundMsg as View>::V>, <R::BaseOpening as View>::V, T::V), Error<<R::Error as View>::V>>
    where
        R: ReductionFunctor<Challenge = T::F>,
        R::RoundMsg: TranscriptSerialize<T::F>,
        T: Transcript,
    decreases rounds_left,
{
    if rounds_left == 0 {
        Err(Error::MaxRoundsExceeded { limit: MAX_ROUNDS })
    } else {
        let (t2, challenge) = T::spec_squeeze(t);
        match R::spec_prover_step(claim, witness, challenge) {
            Err(e) => Err(Error::Reduction(e)),
            Ok(ProverStep::Continue(c)) => spec_prove_rec::<R, T>(
                c.claim,
                c.witness,
                absorb_all::<T>(t2, <R::RoundMsg as TranscriptSerialize<T::F>>::spec_field_elements(c.message)),
                collected.push(c.message),
                (rounds_left - 1) as nat,
            ),
            Ok(ProverStep::Done(d)) => Ok((collected, d.opening, t2)),
        }
    }
}

/// A driver result seen through views.
pub open spec fn proof_result_view<M: View, O: View, T: View, E: View>(
    r: Result<(Proof<M, O>, T), Error<E>>,
) -> Result<(Seq<M::V>, O::V, T::V), Error<E::V>> {
    match r {
        Ok((p, t)) => Ok((p@.0, p@.1, t@)),
        Err(e) => Err(e@),
    }
}

/// Runs the reduction from `claim` and `witness` to its end, drawing each
/// challenge from the transcript and absorbing each message into it.
pub fn prove<R, T>(claim: R::Claim, witness: R::Witness, transcript: T) -> (r: Result<
    (Proof<R::RoundMsg, R::BaseOpening>, T),
    Error<R::Error>,
>) where
    R: ReductionFunctor<Challenge = T::F>,
    R::RoundMsg: TranscriptSerialize<T::F>,
    T: Transcript,

    ensures
        proof_result_view(r) == spec_prove_rec::<R, T>(
            claim@,
            witness@,
            transcript@,
            Seq::empty(),
            MAX_ROUNDS as nat,
        ),
{
    let collected: Vec<R::RoundMsg> = Vec::new();
    proof {
        assert(msg_views(collected@) =~= Seq::empty());
    }
    prove_rec::<R, T>(claim, witness, transcript, collected, MAX_ROUNDS)
}

fn prove_rec<R, T>(
    claim: R::Claim,
    witness: R::Witness,
    transcript: T,
    collected: Vec<R::RoundMsg>,
    rounds_left: usize,
) -> (r: Result<(Proof<R::RoundMsg, R::BaseOpening>, T), Error<R::Error>>) where
    R: ReductionFunctor<Challenge = T::F>,
    R::RoundMsg: TranscriptSerialize<T::F>,
    T: Transcript,

    ensures
        proof_result_view(r) == spec_prove_rec::<R, T>(
            claim@,
            witness@,
            transcript@,
            msg_views(collected@),
            rounds_left as nat,
        ),
    decreases rounds_left,
{
    if rounds_left == 0 {
        return Err(Error::MaxRoundsExceeded { limit: MAX_ROUNDS });
    }
    let (t2, challenge) = transcript.squeeze();
    match R::prover_step(claim, witness, challenge) {
        Err(e) => Err(Error::Reduction(e)),
        Ok(ProverStep::Continue(c)) => {
            let (c_next, w_next, msg) = c.into_parts();
            let t3 = absorb_msg::<T, R::RoundMsg>(t2, &msg);
            let mut new_collected = collected;
            let ghost old = new_collected@;
            new_collected.push(msg);
            proof {
                assert(msg_views(new_collected@) =~= msg_views(old).push(msg@));
            }
            prove_rec::<R, T>(c_next, w_next, t3, new_collected, rounds_left - 1)
        },
        Ok(ProverStep::Done(d)) => {
            let (_c_final, _w_final, opening) = d.into_parts();
            Ok((Proof::new(collected, opening), t2))
        },
    }
}

/// Absorbs the message's field elements, in order.
pub fn absorb_msg<T: Transcript, M: TranscriptSerialize<T::F>>(transcript: T, msg: &M) -> (r: T)
    ensures
        r@ == absorb_all::<T>(transcript@, M::spec_field_elements(msg@)),
{
    let elems = msg.to_field_elements();
    let ghost s = crate::field::values(elems@);
    let mut t = transcript;
    let mut i: usize = 0;
    while i < elems.len()
        invariant
            s == crate::field::values(elems@),
            s == M::spec_field_elements(msg@),
            i <= elems@.len(),
            t@ == absorb_all::<T>(transcript@, s.take(i as int)),
        decreases elems@.len() - i,
    {
        proof {
            assert(s.take(i + 1).drop_last() =~= s.take(i as int));
        }
        t = t.absorb(elems[i]);
        i = i + 1;
    }
    proof {
        assert(s.take(i as int) =~= s);
    }
    t
}

/// Whether the honest prover, from this claim, witness and transcript,
/// continues for `n` rounds in a row without finishing or failing.
pub open spec fn continues_for<R, T>(
    claim: <R::Claim as View>::V,
    witness: <R::Witness as View>::V,
    t: T::V,
    n: nat,
) -> bool
    where
        R: ReductionFunctor<Challenge = T::F>,
        R::RoundMsg: TranscriptSerialize<T::F>,
        T: Transcript,
    decreases n,
{
    if n == 0 {
        true
    } else {
        let (t2, challenge) = T::spec_squeeze(t);
        match R::spec_prover_step(claim, witness, challenge) {
            Ok(ProverStep::Continue(c)) => continues_for::<R, T>(
                c.claim,
                c.witness,
                absorb_all::<T>(t2, <R::RoundMsg as TranscriptSerialize<T::F>>::spec_field_elements(c.message)),
                (n - 1) as nat,
            ),
            _ => false,
        }
    }
}

/// The driver's round limit: it refuses a run with `MaxRoundsExceeded`
/// (naming the limit) exactly when the reduction keeps going for every round
/// allowed, and a run it finishes adds fewer messages than the rounds allowed.
pub proof fn lemma_round_limit<R, T>(
    claim: <R::Claim as View>::V,
    witness: <R::Witness as View>::V,
    t: T::V,
    collected: Seq<<R::RoundMsg as View>::V>,
    rounds: nat,
)
    where
        R: ReductionFunctor<Challenge = T::F>,
        R::RoundMsg: TranscriptSerialize<T::F>,
        T: Transcript,
    ensures
        (spec_prove_rec::<R, T>(claim, witness, t, collected, rounds) == Err::<
            (Seq<<R::RoundMsg as View>::V>, <R::BaseOpening as View>::V, T::V),
            Error<<R::Error as View>::V>,
        >(Error::MaxRoundsExceeded { limit: MAX_ROUNDS })) <==> continues_for::<R, T>(claim, witness, t, rounds),
        spec_prove_rec::<R, T>(claim, witness, t, collected, rounds) matches Ok((msgs, _, _)) ==> collected.len()
            <= msgs.len() < collected.len() + rounds,
    decreases rounds,
{
    if rounds > 0 {
        let (t2, challenge) = T::spec_squeeze(t);
        match R::spec_prover_step(claim, witness, challenge) {
            Ok(ProverStep::Continue(c)) => {
                lemma_round_limit::<R, T>(
                    c.claim,
                    c.witness,
                    absorb_all::<T>(t2, <R::RoundMsg as TranscriptSerialize<T::F>>::spec_field_elements(c.message)),
                    collected.push(c.message),
                    (rounds - 1) as nat,
                );
            },
            _ => {},
        }
    }
}

} // verus!
