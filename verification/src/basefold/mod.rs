//! BaseFold: FRI and sumcheck interleaved over one shared claim, assembled
//! from lenses and an adapter with no protocol code of its own.

use std::marker::PhantomData;
use vstd::prelude::*;

pub mod error;
pub mod laws;

pub use self::error::Error;

use vstd::arithmetic::power::pow;
use vstd::arithmetic::power2::{is_pow2_equiv, lemma_pow2, lemma_pow2_strictly_increases, pow2};

use crate::field::Field;
use crate::util::{is_power_of_two, log2_exact};
use crate::fri::{Fri, FriClaim, FriOpening, FriWitness};
use crate::hash::Hasher;
use crate::reduce::{ClaimAdapter, ClaimLens, Interleave};
use crate::sumcheck::{LinearWitness, Sumcheck, SumcheckClaim, SumcheckOpening};

verus! {

/// A FRI claim about the codeword and a sumcheck claim about the same
/// polynomial.
#[derive(Debug, Clone, Copy, PartialEq, Eq)]
pub struct BaseFoldShared<F: Field> {
    fri_claim: FriClaim<F>,
    sum_claim: SumcheckClaim<F>,
}

impl<F: Field> View for BaseFoldShared<F> {
    type V = ((int, nat), (int, nat));

    closed spec fn view(&self) -> ((int, nat), (int, nat)) {
        (self.fri_claim@, self.sum_claim@)
    }
}

/// The two claims move in lockstep: the codeword has `2^k` values for a
/// polynomial in `k` variables, so FRI and sumcheck finish in the same round.
pub open spec fn claims_in_lockstep(c: ((int, nat), (int, nat))) -> bool {
    c.0.1 == pow2(c.1.1)
}

impl<F: Field> BaseFoldShared<F> {
    /// Pairs the two claims, refusing a pair whose codeword length is not
    /// `2^k` for the `k` variables of the sum claim.
    pub fn new(fri_claim: FriClaim<F>, sum_claim: SumcheckClaim<F>) -> (r: Result<Self, Error>)
        ensures
            claims_in_lockstep((fri_claim@, sum_claim@)) ==> r is Ok && r->Ok_0@ == (fri_claim@, sum_claim@),
            !claims_in_lockstep((fri_claim@, sum_claim@)) ==> r == Err::<Self, Error>(Error::InconsistentShared),
    {
        let len = fri_claim.codeword_len();
        let k = sum_claim.num_vars_remaining();
        if is_power_of_two(len) {
            let log = log2_exact(len);
            proof {
                if len as nat == pow2(k as nat) && log as nat != k as nat {
                    if (log as nat) < k as nat {
                        lemma_pow2_strictly_increases(log as nat, k as nat);
                    } else {
                        lemma_pow2_strictly_increases(k as nat, log as nat);
                    }
                }
            }
            if log as usize == k {
                return Ok(Self { fri_claim, sum_claim });
            }
        }
        proof {
            if len as nat == pow2(k as nat) {
                lemma_pow2(k as nat);
                is_pow2_equiv(len as int);
                assert(pow(2, k as nat) == len as int);
            }
        }
        Err(Error::InconsistentShared)
    }

    pub fn fri_claim(&self) -> (r: &FriClaim<F>)
        ensures
            r@ == self@.0,
    {
        &self.fri_claim
    }

    pub fn sum_claim(&self) -> (r: &SumcheckClaim<F>)
        ensures
            r@ == self@.1,
    {
        &self.sum_claim
    }
}

/// The committed codeword and the multilinear polynomial behind it.
pub struct BaseFoldWitness<H: Hasher> {
    fri_witness: FriWitness<H>,
    sum_witness: LinearWitness<H::F>,
}

impl<H: Hasher> View for BaseFoldWitness<H> {
    type V = (Seq<int>, (nat, Seq<int>));

    closed spec fn view(&self) -> (Seq<int>, (nat, Seq<int>)) {
        (self.fri_witness@, self.sum_witness@)
    }
}

impl<H: Hasher> BaseFoldWitness<H> {
    pub fn new(fri_witness: FriWitness<H>, sum_witness: LinearWitness<H::F>) -> (r: Self)
        ensures
            r@ == (fri_witness@, sum_witness@),
    {
        Self { fri_witness, sum_witness }
    }
}

/// The final FRI value and the final sumcheck value.
#[derive(Debug, Clone, Copy, PartialEq, Eq)]
pub struct BaseFoldOpening<F: Field> {
    fri_opening: FriOpening<F>,
    sum_opening: F,
}

impl<F: Field> View for BaseFoldOpening<F> {
    type V = (int, int);

    closed spec fn view(&self) -> (int, int) {
        (self.fri_opening@, self.sum_opening@)
    }
}

impl<F: Field> BaseFoldOpening<F> {
    pub fn new(fri_opening: FriOpening<F>, sum_opening: F) -> (r: Self)
        ensures
            r@ == (fri_opening@, sum_opening@),
    {
        Self { fri_opening, sum_opening }
    }

    pub fn fri_opening(&self) -> (r: &FriOpening<F>)
        ensures
            r@ == self@.0,
    {
        &self.fri_opening
    }

    pub fn sum_opening(&self) -> (r: F)
        ensures
            r@ == self@.1,
    {
        self.sum_opening
    }
}

/// Projects the shared claim onto its FRI claim.
pub struct FriLens<F>(PhantomData<F>);

impl<F: Field> ClaimLens for FriLens<F> {
    type Whole = BaseFoldShared<F>;
    type Part = FriClaim<F>;
    type Residue = SumcheckClaim<F>;
    type Error = Error;

    open spec fn spec_split(whole: ((int, nat), (int, nat))) -> Result<((int, nat), (int, nat)), Error> {
        Ok((whole.0, whole.1))
    }

    open spec fn spec_join(part: (int, nat), residue: (int, nat)) -> Result<((int, nat), (int, nat)), Error> {
        Ok((part, residue))
    }

    fn split(whole: BaseFoldShared<F>) -> (r: Result<(FriClaim<F>, SumcheckClaim<F>), Error>) {
        let part = whole.fri_claim;
        let residue = whole.sum_claim;
        assert(part@ == whole@.0 && residue@ == whole@.1);
        Ok((part, residue))
    }

    fn join(part: FriClaim<F>, residue: SumcheckClaim<F>) -> (r: Result<BaseFoldShared<F>, Error>) {
        Ok(BaseFoldShared { fri_claim: part, sum_claim: residue })
    }

    proof fn lemma_join_split(whole: ((int, nat), (int, nat))) {
    }

    proof fn lemma_split_join(part: (int, nat), residue: (int, nat)) {
    }
}

/// Projects the shared claim onto its sumcheck claim.
pub struct SumcheckLens<F>(PhantomData<F>);

impl<F: Field> ClaimLens for SumcheckLens<F> {
    type Whole = BaseFoldShared<F>;
    type Part = SumcheckClaim<F>;
    type Residue = FriClaim<F>;
    type Error = Error;

    open spec fn spec_split(whole: ((int, nat), (int, nat))) -> Result<((int, nat), (int, nat)), Error> {
        Ok((whole.1, whole.0))
    }

    open spec fn spec_join(part: (int, nat), residue: (int, nat)) -> Result<((int, nat), (int, nat)), Error> {
        Ok((residue, part))
    }

    fn split(whole: BaseFoldShared<F>) -> (r: Result<(SumcheckClaim<F>, FriClaim<F>), Error>) {
        Ok((whole.sum_claim, whole.fri_claim))
    }

    fn join(part: SumcheckClaim<F>, residue: FriClaim<F>) -> (r: Result<BaseFoldShared<F>, Error>) {
        Ok(BaseFoldShared { fri_claim: residue, sum_claim: part })
    }

    proof fn lemma_join_split(whole: ((int, nat), (int, nat))) {
    }

    proof fn lemma_split_join(part: (int, nat), residue: (int, nat)) {
    }
}

/// Projects the shared witness onto the FRI witness.
pub struct FriWitnessLens<H>(PhantomData<H>);

impl<H: Hasher> ClaimLens for FriWitnessLens<H> {
    type Whole = BaseFoldWitness<H>;
    type Part = FriWitness<H>;
    type Residue = LinearWitness<H::F>;
    type Error = Error;

    open spec fn spec_split(whole: (Seq<int>, (nat, Seq<int>))) -> Result<(Seq<int>, (nat, Seq<int>)), Error> {
        Ok((whole.0, whole.1))
    }

    open spec fn spec_join(part: Seq<int>, residue: (nat, Seq<int>)) -> Result<(Seq<int>, (nat, Seq<int>)), Error> {
        Ok((part, residue))
    }

    fn split(whole: BaseFoldWitness<H>) -> (r: Result<(FriWitness<H>, LinearWitness<H::F>), Error>) {
        let ghost v = whole@;
        let BaseFoldWitness { fri_witness, sum_witness } = whole;
        assert(fri_witness@ == v.0 && sum_witness@ == v.1);
        Ok((fri_witness, sum_witness))
    }

    fn join(part: FriWitness<H>, residue: LinearWitness<H::F>) -> (r: Result<BaseFoldWitness<H>, Error>) {
        Ok(BaseFoldWitness::new(part, residue))
    }

    proof fn lemma_join_split(whole: (Seq<int>, (nat, Seq<int>))) {
    }

    proof fn lemma_split_join(part: Seq<int>, residue: (nat, Seq<int>)) {
    }
}

/// Projects the shared witness onto the sumcheck witness.
pub struct SumcheckWitnessLens<H>(PhantomData<H>);

impl<H: Hasher> ClaimLens for SumcheckWitnessLens<H> {
    type Whole = BaseFoldWitness<H>;
    type Part = LinearWitness<H::F>;
    type Residue = FriWitness<H>;
    type Error = Error;

    open spec fn spec_split(whole: (Seq<int>, (nat, Seq<int>))) -> Result<((nat, Seq<int>), Seq<int>), Error> {
        Ok((whole.1, whole.0))
    }

    open spec fn spec_join(part: (nat, Seq<int>), residue: Seq<int>) -> Result<(Seq<int>, (nat, Seq<int>)), Error> {
        Ok((residue, part))
    }

    fn split(whole: BaseFoldWitness<H>) -> (r: Result<(LinearWitness<H::F>, FriWitness<H>), Error>) {
        Ok((whole.sum_witness, whole.fri_witness))
    }

    fn join(part: LinearWitness<H::F>, residue: FriWitness<H>) -> (r: Result<BaseFoldWitness<H>, Error>) {
        Ok(BaseFoldWitness::new(residue, part))
    }

    proof fn lemma_join_split(whole: (Seq<int>, (nat, Seq<int>))) {
    }

    proof fn lemma_split_join(part: (nat, Seq<int>), residue: Seq<int>) {
    }
}

/// Interleaves FRI on the codeword with sumcheck on the polynomial.
pub struct BaseFoldAdapter<H> {
    _marker: PhantomData<H>,
}

impl<H: Hasher> ClaimAdapter for BaseFoldAdapter<H> {
    type A = Fri<H>;
    type B = Sumcheck<LinearWitness<H::F>>;

    type Shared = BaseFoldShared<H::F>;
    type SharedWitness = BaseFoldWitness<H>;
    type SharedOpening = BaseFoldOpening<H::F>;

    type Error = Error;

    type LensA = FriLens<H::F>;
    type LensB = SumcheckLens<H::F>;
    type WLensA = FriWitnessLens<H>;
    type WLensB = SumcheckWitnessLens<H>;

    /// The final consistency check: the last FRI value and the last
    /// sumcheck value must agree.
    open spec fn spec_combine_openings(a: int, b: int) -> Result<(int, int), Error> {
        if a == b {
            Ok((a, b))
        } else {
            Err(Error::InconsistentShared)
        }
    }

    fn combine_openings(a: FriOpening<H::F>, b: SumcheckOpening<H::F>) -> (r: Result<BaseFoldOpening<H::F>, Error>) {
        if a.constant_value().equals(b.value()) {
            Ok(BaseFoldOpening::new(a, b.value()))
        } else {
            Err(Error::InconsistentShared)
        }
    }
}

/// BaseFold is the interleaving given by `BaseFoldAdapter`.
pub type BaseFold<H> = Interleave<BaseFoldAdapter<H>>;

} // verus!
