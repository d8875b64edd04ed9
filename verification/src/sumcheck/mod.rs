//! The sumcheck protocol as a claim reduction: each round replaces the claim
//! `sum_x P(x) == s` by a claim about `P` with its first variable fixed to
//! the verifier's challenge.

use std::marker::PhantomData;
use vstd::prelude::*;

pub mod binius;
pub mod error;
pub mod gkr;
pub mod interp;
pub mod laws;
pub mod logup;
pub mod products;
pub mod witness;

pub use self::binius::BiniusWitness;
pub use self::error::Error;
pub use self::gkr::{layer_sumcheck_claim, AddLayer, GkrCircuit, GkrLayer, GkrWiring, MulLayer};
pub use self::logup::{logup_claim, LogUpWitness};
pub use self::interp::{eval_at_point, field_from_usize, lagrange_interpolate};
pub use self::products::SumOfProductsWitness;
pub use self::witness::{LinearWitness, ProductWitness};

use self::interp::lagrange_value;
use crate::field::{values, Field};
use crate::reduce::{
    ProverContinue, ProverDone, ProverStep, ReductionFunctor, TranscriptSerialize,
    VerifierContinue, VerifierDone, VerifierStep,
};
use crate::util::copy_vec;

verus! {

/// The claim that a polynomial in `num_vars_remaining` variables sums to
/// `claimed_sum` over the boolean hypercube.
#[derive(Debug, Clone, Copy, PartialEq, Eq)]
pub struct SumcheckClaim<F> {
    claimed_sum: F,
    num_vars_remaining: usize,
}

impl<F: Field> View for SumcheckClaim<F> {
    type V = (int, nat);

    /// The claimed sum and the number of variables still to fix.
    closed spec fn view(&self) -> (int, nat) {
        (self.claimed_sum@, self.num_vars_remaining as nat)
    }
}

impl<F: Field> SumcheckClaim<F> {
    pub fn new(claimed_sum: F, num_vars_remaining: usize) -> (r: Self)
        ensures
            r@ == (claimed_sum@, num_vars_remaining as nat),
    {
        Self { claimed_sum, num_vars_remaining }
    }

    pub fn claimed_sum(&self) -> (r: F)
        ensures
            r@ == self@.0,
    {
        self.claimed_sum
    }

    pub fn num_vars_remaining(&self) -> (r: usize)
        ensures
            r == self@.1,
    {
        self.num_vars_remaining
    }
}

/// `Some(v)` seen as `Some(v@)`.
pub open spec fn option_value<F: Field>(o: Option<F>) -> Option<int> {
    match o {
        Some(v) => Some(v@),
        None => None,
    }
}

/// A witness of a sumcheck claim: a function on the hypercube whose round
/// polynomial can be computed and whose first variable can be fixed.
pub trait SumcheckFunction: Sized + View {
    type F: Field;

    spec fn spec_num_vars(w: Self::V) -> nat;

    spec fn spec_round_poly_degree(w: Self::V) -> nat;

    /// The round polynomial's values at `0, 1, ..., degree`.
    spec fn spec_round_poly_evals(w: Self::V) -> Seq<int>;

    spec fn spec_fix_variable(w: Self::V, val: int) -> Self::V;

    /// The value left once every variable is fixed, if there is one.
    spec fn spec_final_value(w: Self::V) -> Option<int>;

    fn num_vars(&self) -> (r: usize)
        ensures
            r == Self::spec_num_vars(self@);

    fn round_poly_degree(&self) -> (r: usize)
        ensures
            r == Self::spec_round_poly_degree(self@);

    fn round_poly_evals(&self) -> (r: Vec<Self::F>)
        ensures
            values(r@) == Self::spec_round_poly_evals(self@);

    fn fix_variable(self, val: Self::F) -> (r: Self)
        ensures
            r@ == Self::spec_fix_variable(self@, val@);

    fn final_value(&self) -> (r: Option<Self::F>)
        ensures
            option_value(r) == Self::spec_final_value(self@);
}

/// `s(0) + s(1)` of a round polynomial given by its values, a missing value
/// counting as zero.
pub open spec fn evals_claimed_sum<F: Field>(e: Seq<int>) -> int {
    F::vadd(
        if e.len() > 0 {
            e[0]
        } else {
            0
        },
        if e.len() > 1 {
            e[1]
        } else {
            0
        },
    )
}

/// A round message: the round polynomial's values at `0, 1, ..., d`.
#[derive(Debug)]
pub struct SumcheckRoundMsg<F> {
    evals: Vec<F>,
}

impl<F: Field> View for SumcheckRoundMsg<F> {
    type V = Seq<int>;

    closed spec fn view(&self) -> Seq<int> {
        values(self.evals@)
    }
}

impl<F: Field> SumcheckRoundMsg<F> {
    pub fn new(evals: Vec<F>) -> (r: Self)
        ensures
            r@ == values(evals@),
    {
        Self { evals }
    }

    pub fn evals(&self) -> (r: &[F])
        ensures
            values(r@) == self@,
    {
        self.evals.as_slice()
    }

    /// The degree of the round polynomial, one less than the number of values.
    pub fn degree(&self) -> (r: usize)
        ensures
            r == if self@.len() > 0 {
                self@.len() - 1
            } else {
                0
            },
    {
        self.evals.len().saturating_sub(1)
    }

    /// `s(0) + s(1)`.
    pub fn claimed_sum(&self) -> (r: F)
        ensures
            r@ == evals_claimed_sum::<F>(self@),
    {
        let e0 = if self.evals.len() > 0 {
            self.evals[0]
        } else {
            F::zero()
        };
        let e1 = if self.evals.len() > 1 {
            self.evals[1]
        } else {
            F::zero()
        };
        e0.add(e1)
    }

    /// `s(point)`, by interpolation through the values.
    pub fn evaluate_at(&self, point: F) -> (r: F)
        ensures
            r@ == lagrange_value::<F>(self@, point@),
    {
        lagrange_interpolate(self.evals.as_slice(), point)
    }
}

impl<F: Field> Clone for SumcheckRoundMsg<F> {
    fn clone(&self) -> (r: Self)
        ensures
            r@ == self@,
    {
        Self { evals: copy_vec(&self.evals) }
    }
}

impl<F: Field> TranscriptSerialize<F> for SumcheckRoundMsg<F> {
    open spec fn spec_field_elements(m: Seq<int>) -> Seq<int> {
        m
    }

    fn to_field_elements(&self) -> (r: Vec<F>) {
        copy_vec(&self.evals)
    }
}

/// The value that the fully reduced claim is checked against.
#[derive(Debug, Clone, Copy, PartialEq, Eq)]
pub struct SumcheckOpening<F> {
    value: F,
}

impl<F: Field> View for SumcheckOpening<F> {
    type V = int;

    closed spec fn view(&self) -> int {
        self.value@
    }
}

impl<F: Field> SumcheckOpening<F> {
    pub fn new(value: F) -> (r: Self)
        ensures
            r@ == value@,
    {
        Self { value }
    }

    pub fn value(&self) -> (r: F)
        ensures
            r@ == self@,
    {
        self.value
    }
}

impl<F: Field> TranscriptSerialize<F> for SumcheckOpening<F> {
    open spec fn spec_field_elements(m: int) -> Seq<int> {
        seq![m]
    }

    fn to_field_elements(&self) -> (r: Vec<F>) {
        let r = vec![self.value];
        proof {
            assert(values(r@) =~= seq![self@]);
        }
        r
    }
}

/// Sumcheck over the witness function `W`.
pub struct Sumcheck<W> {
    _marker: PhantomData<W>,
}

impl<W: SumcheckFunction> ReductionFunctor for Sumcheck<W> {
    type Claim = SumcheckClaim<W::F>;
    type Witness = W;
    type RoundMsg = SumcheckRoundMsg<W::F>;
    type Challenge = W::F;
    type BaseOpening = SumcheckOpening<W::F>;
    type Error = Error;

    /// With variables left, the prover sends the round polynomial, fixes the
    /// first variable to the challenge and claims the polynomial's value
    /// there; with none left, it opens the witness's final value.
    open spec fn spec_prover_step(claim: (int, nat), witness: W::V, challenge: int) -> Result<
        ProverStep<(int, nat), W::V, Seq<int>, int>,
        Error,
    > {
        if claim.1 == 0 {
            match W::spec_final_value(witness) {
                None => Err(Error::WitnessEmpty),
                Some(v) => Ok(ProverStep::Done(ProverDone { claim, witness, opening: v })),
            }
        } else {
            let evals = W::spec_round_poly_evals(witness);
            Ok(
                ProverStep::Continue(
                    ProverContinue {
                        claim: (lagrange_value::<W::F>(evals, challenge), (claim.1 - 1) as nat),
                        witness: W::spec_fix_variable(witness, challenge),
                        message: evals,
                    },
                ),
            )
        }
    }

    /// The verifier checks `s(0) + s(1)` against the claim and moves to the
    /// claim `s(challenge)`; the last round ends with that value as opening.
    open spec fn spec_verifier_step(claim: (int, nat), message: Seq<int>, challenge: int) -> Result<
        VerifierStep<(int, nat), int>,
        Error,
    > {
        if claim.1 == 0 {
            Err(Error::StepOnFinished)
        } else if evals_claimed_sum::<W::F>(message) != claim.0 {
            Err(Error::RoundSumMismatch)
        } else {
            let s = lagrange_value::<W::F>(message, challenge);
            if claim.1 == 1 {
                Ok(VerifierStep::Done(VerifierDone { claim: (s, 0), opening: s }))
            } else {
                Ok(VerifierStep::Continue(VerifierContinue { claim: (s, (claim.1 - 1) as nat) }))
            }
        }
    }

    fn prover_step(claim: SumcheckClaim<W::F>, witness: W, challenge: W::F) -> (r: Result<
        ProverStep<SumcheckClaim<W::F>, W, SumcheckRoundMsg<W::F>, SumcheckOpening<W::F>>,
        Error,
    >) {
        if claim.num_vars_remaining == 0 {
            match witness.final_value() {
                None => Err(Error::WitnessEmpty),
                Some(val) => Ok(
                    ProverStep::Done(ProverDone::new(claim, witness, SumcheckOpening::new(val))),
                ),
            }
        } else {
            let evals = witness.round_poly_evals();
            let msg = SumcheckRoundMsg::new(evals);
            let new_poly = witness.fix_variable(challenge);
            let new_sum = msg.evaluate_at(challenge);
            Ok(
                ProverStep::Continue(
                    ProverContinue::new(
                        SumcheckClaim::new(new_sum, claim.num_vars_remaining - 1),
                        new_poly,
                        msg,
                    ),
                ),
            )
        }
    }

    fn verifier_step(
        claim: SumcheckClaim<W::F>,
        message: SumcheckRoundMsg<W::F>,
        challenge: W::F,
    ) -> (r: Result<VerifierStep<SumcheckClaim<W::F>, SumcheckOpening<W::F>>, Error>) {
        if claim.num_vars_remaining == 0 {
            Err(Error::StepOnFinished)
        } else if !message.claimed_sum().equals(claim.claimed_sum) {
            Err(Error::RoundSumMismatch)
        } else {
            let new_sum = message.evaluate_at(challenge);
            let new_vars = claim.num_vars_remaining - 1;
            if new_vars == 0 {
                Ok(
                    VerifierStep::Done(
                        VerifierDone::new(SumcheckClaim::new(new_sum, 0), SumcheckOpening::new(new_sum)),
                    ),
                )
            } else {
                Ok(VerifierStep::Continue(VerifierContinue::new(SumcheckClaim::new(new_sum, new_vars))))
            }
        }
    }
}

} // verus!
