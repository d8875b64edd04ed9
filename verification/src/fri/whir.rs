//! WHIR as a claim reduction: a committed table of multilinear evaluations
//! is folded one variable per round and recommitted, until one value is
//! left.

use std::marker::PhantomData;
use vstd::prelude::*;
use vstd::arithmetic::power2::is_pow2;

use super::error::Error;
use super::{merkle_root_of, spec_build_witness};
use crate::field::{values, Field};
use crate::hash::Hasher;
use crate::merkle::{merkle_layers, MerkleTree};
use crate::reduce::{
    ProverContinue, ProverDone, ProverStep, ReductionFunctor, TranscriptSerialize,
    VerifierContinue, VerifierDone, VerifierStep,
};
use crate::util::{copy_vec, is_power_of_two};

verus! {

/// The claim about the table of `2^num_vars` values committed under
/// `commitment`.
#[derive(Debug, Clone, Copy, PartialEq, Eq)]
pub struct WhirClaim<F> {
    commitment: F,
    num_vars: usize,
}

impl<F: Field> View for WhirClaim<F> {
    type V = (int, nat);

    closed spec fn view(&self) -> (int, nat) {
        (self.commitment@, self.num_vars as nat)
    }
}

impl<F: Field> WhirClaim<F> {
    pub fn new(commitment: F, num_vars: usize) -> (r: Self)
        ensures
            r@ == (commitment@, num_vars as nat),
    {
        Self { commitment, num_vars }
    }

    pub fn commitment(&self) -> (r: F)
        ensures
            r@ == self@.0,
    {
        self.commitment
    }

    pub fn num_vars(&self) -> (r: usize)
        ensures
            r == self@.1,
    {
        self.num_vars
    }
}

/// A table of evaluations together with its Merkle tree.
pub struct WhirWitness<H: Hasher> {
    evals: Vec<H::F>,
    tree: MerkleTree<H>,
}

impl<H: Hasher> View for WhirWitness<H> {
    type V = Seq<int>;

    closed spec fn view(&self) -> Seq<int> {
        values(self.evals@)
    }
}

impl<H: Hasher> WhirWitness<H> {
    #[verifier::type_invariant]
    closed spec fn committed(self) -> bool {
        &&& self@.len() > 0
        &&& is_pow2(self@.len() as int)
        &&& self.tree@ == merkle_layers::<H>(self@)
    }

    /// Commits to a table whose length is a nonzero power of two.
    pub fn build(evals: Vec<H::F>) -> (r: Result<Self, Error>)
        ensures
            match r {
                Ok(w) => spec_build_witness::<H>(values(evals@)) == Ok::<Seq<int>, Error>(w@),
                Err(e) => spec_build_witness::<H>(values(evals@)) == Err::<Seq<int>, Error>(e),
            },
    {
        if evals.len() == 0 {
            Err(Error::CodewordEmpty)
        } else if !is_power_of_two(evals.len()) {
            Err(Error::CodewordLengthNotPowerOfTwo { len: evals.len() })
        } else {
            let leaves = copy_vec(&evals);
            match MerkleTree::<H>::build(leaves) {
                Ok(tree) => Ok(Self { evals, tree }),
                Err(e) => Err(Error::from(e)),
            }
        }
    }

    /// The root of the commitment.
    pub fn commitment(&self) -> (r: Result<H::F, Error>)
        ensures
            r is Ok,
            r->Ok_0@ == merkle_root_of::<H>(self@),
    {
        proof {
            use_type_invariant(self);
        }
        match self.tree.root() {
            Ok(root) => Ok(root),
            Err(e) => Err(Error::from(e)),
        }
    }
}

/// A round message: the commitment to the folded table.
#[derive(Debug, Clone, Copy, PartialEq, Eq)]
pub struct WhirRoundMsg<F> {
    folded_commitment: F,
}

impl<F: Field> View for WhirRoundMsg<F> {
    type V = int;

    closed spec fn view(&self) -> int {
        self.folded_commitment@
    }
}

impl<F: Field> WhirRoundMsg<F> {
    pub fn new(folded_commitment: F) -> (r: Self)
        ensures
            r@ == folded_commitment@,
    {
        Self { folded_commitment }
    }
}

impl<F: Field> TranscriptSerialize<F> for WhirRoundMsg<F> {
    open spec fn spec_field_elements(m: int) -> Seq<int> {
        seq![m]
    }

    fn to_field_elements(&self) -> (r: Vec<F>) {
        let r = vec![self.folded_commitment];
        proof {
            assert(values(r@) =~= seq![self@]);
        }
        r
    }
}

/// The single value left after the last round.
#[derive(Debug, Clone, Copy, PartialEq, Eq)]
pub struct WhirOpening<F> {
    value: F,
}

impl<F: Field> View for WhirOpening<F> {
    type V = int;

    closed spec fn view(&self) -> int {
        self.value@
    }
}

impl<F: Field> WhirOpening<F> {
    pub fn new(value: F) -> (r: Self)
        ensures
            r@ == value@,
    {
        Self { value }
    }

    pub fn value(&self) -> (r: F)
        ensures
            r@ == self@,
    {
        self.value
    }
}

impl<F: Field> TranscriptSerialize<F> for WhirOpening<F> {
    open spec fn spec_field_elements(m: int) -> Seq<int> {
        seq![m]
    }

    fn to_field_elements(&self) -> (r: Vec<F>) {
        let r = vec![self.value];
        proof {
            assert(values(r@) =~= seq![self@]);
        }
        r
    }
}

/// One WHIR folding step: entry `i` is `w[2i] + r * w[2i+1]`, the even
/// and odd halves weighted by the challenge.
pub open spec fn whir_fold_table<F: Field>(w: Seq<int>, r: int) -> Seq<int> {
    Seq::new(w.len() / 2, |i: int| F::vadd(w[2 * i], F::vmul(r, w[2 * i + 1])))
}

/// Folds the table in half: entry `i` is `evals[2i] + r * evals[2i+1]`.
fn whir_fold<F: Field>(evals: &[F], challenge: F) -> (r: Vec<F>)
    ensures
        values(r@) == whir_fold_table::<F>(values(evals@), challenge@),
{
    let n = evals.len();
    let half = n / 2;
    let ghost target = whir_fold_table::<F>(values(evals@), challenge@);
    let mut out: Vec<F> = Vec::new();
    let mut i: usize = 0;
    while i < half
        invariant
            n == evals@.len(),
            half == n / 2,
            half * 2 <= n,
            i <= half,
            target == whir_fold_table::<F>(values(evals@), challenge@),
            values(out@) == target.subrange(0, i as int),
        decreases half - i,
    {
        let v = evals[2 * i].add(challenge.mul(evals[2 * i + 1]));
        let ghost old_out = out@;
        out.push(v);
        proof {
            assert(values(out@) =~= values(old_out).push(v@));
            assert(target.subrange(0, i + 1) =~= target.subrange(0, i as int).push(target[i as int]));
        }
        i = i + 1;
    }
    proof {
        assert(values(out@) =~= target);
    }
    out
}

/// WHIR over the hash `H`.
pub struct Whir<H> {
    _marker: PhantomData<H>,
}

impl<H: Hasher> ReductionFunctor for Whir<H> {
    type Claim = WhirClaim<H::F>;
    type Witness = WhirWitness<H>;
    type RoundMsg = WhirRoundMsg<H::F>;
    type Challenge = H::F;
    type BaseOpening = WhirOpening<H::F>;
    type Error = Error;

    /// With no variables left the prover opens the first value; otherwise it
    /// folds with the challenge, commits, and claims one variable fewer.
    open spec fn spec_prover_step(claim: (int, nat), witness: Seq<int>, challenge: int) -> Result<
        ProverStep<(int, nat), Seq<int>, int, int>,
        Error,
    > {
        if claim.1 == 0 {
            if witness.len() > 0 {
                Ok(ProverStep::Done(ProverDone { claim, witness, opening: witness[0] }))
            } else {
                Err(Error::CodewordEmpty)
            }
        } else {
            match spec_build_witness::<H>(whir_fold_table::<H::F>(witness, challenge)) {
                Err(e) => Err(e),
                Ok(w) => {
                    let root = merkle_root_of::<H>(w);
                    Ok(
                        ProverStep::Continue(
                            ProverContinue { claim: (root, (claim.1 - 1) as nat), witness: w, message: root },
                        ),
                    )
                },
            }
        }
    }

    /// The verifier takes the folded commitment as the new claim with one
    /// variable fewer; at zero it is also the opening.
    open spec fn spec_verifier_step(claim: (int, nat), message: int, challenge: int) -> Result<
        VerifierStep<(int, nat), int>,
        Error,
    > {
        if claim.1 == 0 {
            Err(Error::StepOnFinished)
        } else if claim.1 == 1 {
            Ok(VerifierStep::Done(VerifierDone { claim: (message, 0), opening: message }))
        } else {
            Ok(VerifierStep::Continue(VerifierContinue { claim: (message, (claim.1 - 1) as nat) }))
        }
    }

    fn prover_step(claim: WhirClaim<H::F>, witness: WhirWitness<H>, challenge: H::F) -> (r: Result<
        ProverStep<WhirClaim<H::F>, WhirWitness<H>, WhirRoundMsg<H::F>, WhirOpening<H::F>>,
        Error,
    >) {
        if claim.num_vars == 0 {
            if witness.evals.len() > 0 {
                let val = witness.evals[0];
                Ok(ProverStep::Done(ProverDone::new(claim, witness, WhirOpening::new(val))))
            } else {
                Err(Error::CodewordEmpty)
            }
        } else {
            let folded = whir_fold(witness.evals.as_slice(), challenge);
            let new_witness = match WhirWitness::<H>::build(folded) {
                Ok(w) => w,
                Err(e) => return Err(e),
            };
            let new_commitment = match new_witness.commitment() {
                Ok(c) => c,
                Err(e) => return Err(e),
            };
            let msg = WhirRoundMsg::new(new_commitment);
            Ok(
                ProverStep::Continue(
                    ProverContinue::new(
                        WhirClaim::new(new_commitment, claim.num_vars - 1),
                        new_witness,
                        msg,
                    ),
                ),
            )
        }
    }

    fn verifier_step(claim: WhirClaim<H::F>, message: WhirRoundMsg<H::F>, challenge: H::F) -> (r: Result<
        VerifierStep<WhirClaim<H::F>, WhirOpening<H::F>>,
        Error,
    >) {
        if claim.num_vars == 0 {
            Err(Error::StepOnFinished)
        } else {
            let new_vars = claim.num_vars - 1;
            if new_vars == 0 {
                Ok(
                    VerifierStep::Done(
                        VerifierDone::new(
                            WhirClaim::new(message.folded_commitment, 0),
                            WhirOpening::new(message.folded_commitment),
                        ),
                    ),
                )
            } else {
                Ok(
                    VerifierStep::Continue(
                        VerifierContinue::new(WhirClaim::new(message.folded_commitment, new_vars)),
                    ),
                )
            }
        }
    }
}

} // verus!
