//! Fiat-Shamir transcripts: absorb field elements, squeeze challenges.

use vstd::prelude::*;

use crate::field::Field;

verus! {

/// A transcript seen through its view; absorbing and squeezing are
/// functions of that view.
pub trait Transcript: Sized + View {
    type F: Field;

    spec fn spec_new() -> Self::V;

    spec fn spec_absorb(t: Self::V, val: int) -> Self::V;

    /// The next state and the challenge.
    spec fn spec_squeeze(t: Self::V) -> (Self::V, int);

    /// The states that a fresh transcript reaches by absorbing field values
    /// and squeezing.
    spec fn spec_reachable(t: Self::V) -> bool;

    /// The fresh state is reachable; absorbing a field value and squeezing
    /// keep a state reachable; a challenge squeezed from a reachable state
    /// is a field value.
    proof fn lemma_reachable(t: Self::V, val: int)
        requires
            Self::spec_reachable(t),
            0 <= val < <Self::F as Field>::order(),
        ensures
            Self::spec_reachable(Self::spec_new()),
            Self::spec_reachable(Self::spec_absorb(t, val)),
            Self::spec_reachable(Self::spec_squeeze(t).0),
            0 <= Self::spec_squeeze(t).1 < <Self::F as Field>::order();

    fn new() -> (r: Self)
        ensures
            r@ == Self::spec_new();

    fn absorb(self, val: Self::F) -> (r: Self)
        ensures
            r@ == Self::spec_absorb(self@, val@);

    fn squeeze(self) -> (r: (Self, Self::F))
        ensures
            (r.0@, r.1@) == Self::spec_squeeze(self@);
}

/// The state after absorbing the values `s` in order.
pub open spec fn absorb_all<T: Transcript>(t: T::V, s: Seq<int>) -> T::V
    decreases s.len(),
{
    if s.len() == 0 {
        t
    } else {
        T::spec_absorb(absorb_all::<T>(t, s.drop_last()), s.last())
    }
}

/// Absorbing field values keeps a state reachable.
pub proof fn lemma_absorb_all_reachable<T: Transcript>(t: T::V, s: Seq<int>)
    requires
        T::spec_reachable(t),
        forall|i: int| 0 <= i < s.len() ==> 0 <= #[trigger] s[i] < <T::F as Field>::order(),
    ensures
        T::spec_reachable(absorb_all::<T>(t, s)),
    decreases s.len(),
{
    if s.len() > 0 {
        lemma_absorb_all_reachable::<T>(t, s.drop_last());
        T::lemma_reachable(absorb_all::<T>(t, s.drop_last()), s.last());
    }
}

/// A sponge over one field element with the `x^5` map; for structural
/// testing only, not a secure hash.
pub struct AlgebraicTranscript<F> {
    state: F,
}

impl<F: Field> View for AlgebraicTranscript<F> {
    type V = int;

    closed spec fn view(&self) -> int {
        self.state@
    }
}

impl<F: Field> Transcript for AlgebraicTranscript<F> {
    type F = F;

    open spec fn spec_new() -> int {
        0
    }

    /// `(state + val)^5 + state`.
    open spec fn spec_absorb(t: int, val: int) -> int {
        F::vadd(F::vpow(F::vadd(t, val), 5), t)
    }

    /// The challenge is `state^5 + 2 state`; the next state adds `state` to it.
    open spec fn spec_squeeze(t: int) -> (int, int) {
        let challenge = F::vadd(F::vpow(t, 5), F::vadd(t, t));
        (F::vadd(challenge, t), challenge)
    }

    /// The state is always a field value.
    open spec fn spec_reachable(t: int) -> bool {
        0 <= t < F::order()
    }

    proof fn lemma_reachable(t: int, val: int) {
        F::lemma_order();
        F::lemma_closed(t, val);
        F::lemma_closed(t, t);
        crate::field::lemma_pow_in_field::<F>(F::vadd(t, val), 5);
        crate::field::lemma_pow_in_field::<F>(t, 5);
        F::lemma_closed(F::vpow(F::vadd(t, val), 5), t);
        F::lemma_closed(F::vpow(t, 5), F::vadd(t, t));
        let c = F::vadd(F::vpow(t, 5), F::vadd(t, t));
        F::lemma_closed(c, t);
    }

    fn new() -> (r: Self) {
        Self { state: F::zero() }
    }

    fn absorb(self, val: F) -> (r: Self) {
        let mixed = self.state.add(val).pow(5).add(self.state);
        Self { state: mixed }
    }

    fn squeeze(self) -> (r: (Self, F)) {
        let challenge = self.state.pow(5).add(self.state.double());
        let next = challenge.add(self.state);
        (Self { state: next }, challenge)
    }
}

/// Squeezing keeps the state moving: after a squeeze the state is the
/// challenge plus the state before it, so two consecutive squeezes of one
/// state give the second challenge from that sum.
pub proof fn lemma_squeeze_state<F: Field>(t: int)
    ensures
        <AlgebraicTranscript<F> as Transcript>::spec_squeeze(t).0 == F::vadd(
            <AlgebraicTranscript<F> as Transcript>::spec_squeeze(t).1,
            t,
        ),
        <AlgebraicTranscript<F> as Transcript>::spec_squeeze(<AlgebraicTranscript<F> as Transcript>::spec_squeeze(t).0).1
            == <AlgebraicTranscript<F> as Transcript>::spec_squeeze(
            F::vadd(<AlgebraicTranscript<F> as Transcript>::spec_squeeze(t).1, t),
        ).1,
{
}

} // verus!
