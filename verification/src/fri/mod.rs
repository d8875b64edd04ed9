//! FRI as a claim reduction: each round folds the committed codeword in
//! half with the verifier's challenge and commits to the result, until a
//! single value is left.

use std::marker::PhantomData;
use vstd::prelude::*;
use vstd::arithmetic::power2::is_pow2;

pub mod error;
pub mod laws;
pub mod whir;

pub use self::error::Error;
pub use self::whir::{Whir, WhirClaim, WhirOpening, WhirRoundMsg, WhirWitness};

use crate::field::{values, Field};
use crate::hash::Hasher;
use crate::merkle::{merkle_layers, MerkleTree};
use crate::reduce::{
    ProverContinue, ProverDone, ProverStep, ReductionFunctor, TranscriptSerialize,
    VerifierContinue, VerifierDone, VerifierStep,
};
use crate::util::{copy_vec, is_power_of_two};

verus! {

/// The root of the Merkle tree over `leaves`.
pub open spec fn merkle_root_of<H: Hasher>(leaves: Seq<int>) -> int {
    merkle_layers::<H>(leaves).last()[0]
}

/// One folding step: entry `i` is `w[2i] + (w[2i+1] - w[2i]) * r`, the
/// table with its first variable fixed to `r`, as in sumcheck.
pub open spec fn fri_fold<F: Field>(w: Seq<int>, r: int) -> Seq<int> {
    Seq::new(w.len() / 2, |i: int| F::vadd(w[2 * i], F::vmul(F::vsub(w[2 * i + 1], w[2 * i]), r)))
}

/// The claim that the codeword of length `codeword_len` committed under
/// `merkle_root` is close to a low-degree polynomial.
#[derive(Debug, Clone, Copy, PartialEq, Eq)]
pub struct FriClaim<F> {
    merkle_root: F,
    codeword_len: usize,
}

impl<F: Field> View for FriClaim<F> {
    type V = (int, nat);

    /// The committed root and the codeword length.
    closed spec fn view(&self) -> (int, nat) {
        (self.merkle_root@, self.codeword_len as nat)
    }
}

impl<F: Field> FriClaim<F> {
    pub fn new(merkle_root: F, codeword_len: usize) -> (r: Self)
        ensures
            r@ == (merkle_root@, codeword_len as nat),
    {
        Self { merkle_root, codeword_len }
    }

    pub fn merkle_root(&self) -> (r: F)
        ensures
            r@ == self@.0,
    {
        self.merkle_root
    }

    pub fn codeword_len(&self) -> (r: usize)
        ensures
            r == self@.1,
    {
        self.codeword_len
    }
}

/// A codeword together with its Merkle tree.
pub struct FriWitness<H: Hasher> {
    codeword: Vec<H::F>,
    tree: MerkleTree<H>,
}

impl<H: Hasher> View for FriWitness<H> {
    type V = Seq<int>;

    /// The values of the codeword.
    closed spec fn view(&self) -> Seq<int> {
        values(self.codeword@)
    }
}

/// What `FriWitness::build` returns on a codeword with values `cw`.
pub open spec fn spec_build_witness<H: Hasher>(cw: Seq<int>) -> Result<Seq<int>, Error> {
    if cw.len() == 0 {
        Err(Error::CodewordEmpty)
    } else if !is_pow2(cw.len() as int) {
        Err(Error::CodewordLengthNotPowerOfTwo { len: cw.len() as usize })
    } else {
        Ok(cw)
    }
}

impl<H: Hasher> FriWitness<H> {
    /// The tree is built over the codeword, a nonempty power of two long.
    #[verifier::type_invariant]
    closed spec fn committed(self) -> bool {
        &&& self@.len() > 0
        &&& is_pow2(self@.len() as int)
        &&& self.tree@ == merkle_layers::<H>(self@)
    }

    /// Commits to a codeword whose length is a nonzero power of two.
    pub fn build(codeword: Vec<H::F>) -> (r: Result<Self, Error>)
        ensures
            match r {
                Ok(w) => spec_build_witness::<H>(values(codeword@)) == Ok::<Seq<int>, Error>(w@),
                Err(e) => spec_build_witness::<H>(values(codeword@)) == Err::<Seq<int>, Error>(e),
            },
    {
        if codeword.len() == 0 {
            Err(Error::CodewordEmpty)
        } else if !is_power_of_two(codeword.len()) {
            Err(Error::CodewordLengthNotPowerOfTwo { len: codeword.len() })
        } else {
            let leaves = copy_vec(&codeword);
            match MerkleTree::<H>::build(leaves) {
                Ok(tree) => Ok(Self { codeword, tree }),
                Err(e) => Err(Error::from(e)),
            }
        }
    }

    /// The root of the commitment.
    pub fn merkle_root(&self) -> (r: Result<H::F, Error>)
        ensures
            r is Ok,
            r->Ok_0@ == merkle_root_of::<H>(self@),
    {
        proof {
            use_type_invariant(self);
        }
        match self.tree.root() {
            Ok(root) => Ok(root),
            Err(e) => Err(Error::from(e)),
        }
    }

    pub fn codeword(&self) -> (r: &[H::F])
        ensures
            values(r@) == self@,
    {
        self.codeword.as_slice()
    }
}

/// A round message: the root of the folded codeword's tree.
#[derive(Debug, Clone, Copy, PartialEq, Eq)]
pub struct FriRoundMsg<F> {
    folded_root: F,
}

impl<F: Field> View for FriRoundMsg<F> {
    type V = int;

    closed spec fn view(&self) -> int {
        self.folded_root@
    }
}

impl<F: Field> FriRoundMsg<F> {
    pub fn new(folded_root: F) -> (r: Self)
        ensures
            r@ == folded_root@,
    {
        Self { folded_root }
    }

    pub fn folded_root(&self) -> (r: F)
        ensures
            r@ == self@,
    {
        self.folded_root
    }
}

impl<F: Field> TranscriptSerialize<F> for FriRoundMsg<F> {
    open spec fn spec_field_elements(m: int) -> Seq<int> {
        seq![m]
    }

    fn to_field_elements(&self) -> (r: Vec<F>) {
        let r = vec![self.folded_root];
        proof {
            assert(values(r@) =~= seq![self@]);
        }
        r
    }
}

/// The final, constant value of the folded codeword.
#[derive(Debug, Clone, Copy, PartialEq, Eq)]
pub struct FriOpening<F> {
    constant_value: F,
}

impl<F: Field> View for FriOpening<F> {
    type V = int;

    closed spec fn view(&self) -> int {
        self.constant_value@
    }
}

impl<F: Field> FriOpening<F> {
    pub fn new(constant_value: F) -> (r: Self)
        ensures
            r@ == constant_value@,
    {
        Self { constant_value }
    }

    pub fn into_constant_value(self) -> (r: F)
        ensures
            r@ == self@,
    {
        self.constant_value
    }

    pub fn constant_value(&self) -> (r: F)
        ensures
            r@ == self@,
    {
        self.constant_value
    }
}

impl<F: Field> TranscriptSerialize<F> for FriOpening<F> {
    open spec fn spec_field_elements(m: int) -> Seq<int> {
        seq![m]
    }

    fn to_field_elements(&self) -> (r: Vec<F>) {
        let r = vec![self.constant_value];
        proof {
            assert(values(r@) =~= seq![self@]);
        }
        r
    }
}

/// Folds the codeword in half with the challenge.
pub fn fold_codeword<F: Field>(codeword: &[F], challenge: F) -> (r: Vec<F>)
    ensures
        values(r@) == fri_fold::<F>(values(codeword@), challenge@),
{
    let n = codeword.len();
    let half = n / 2;
    let ghost target = fri_fold::<F>(values(codeword@), challenge@);
    let mut out: Vec<F> = Vec::new();
    let mut i: usize = 0;
    while i < half
        invariant
            n == codeword@.len(),
            half == n / 2,
            half * 2 <= n,
            i <= half,
            target == fri_fold::<F>(values(codeword@), challenge@),
            values(out@) == target.subrange(0, i as int),
        decreases half - i,
    {
        let v = codeword[2 * i].add(codeword[2 * i + 1].sub(codeword[2 * i]).mul(challenge));
        let ghost old_out = out@;
        out.push(v);
        proof {
            assert(values(out@) =~= values(old_out).push(v@));
            assert(target.subrange(0, i + 1) =~= target.subrange(0, i as int).push(target[i as int]));
        }
        i = i + 1;
    }
    proof {
        assert(values(out@) =~= target);
    }
    out
}

/// FRI over the hash `H`.
pub struct Fri<H> {
    _marker: PhantomData<H>,
}

impl<H: Hasher> ReductionFunctor for Fri<H> {
    type Claim = FriClaim<H::F>;
    type Witness = FriWitness<H>;
    type RoundMsg = FriRoundMsg<H::F>;
    type Challenge = H::F;
    type BaseOpening = FriOpening<H::F>;
    type Error = Error;

    /// At length one or less the prover opens the first value; otherwise it
    /// folds with the challenge, commits, and claims the new root and half
    /// the length.
    open spec fn spec_prover_step(claim: (int, nat), witness: Seq<int>, challenge: int) -> Result<
        ProverStep<(int, nat), Seq<int>, int, int>,
        Error,
    > {
        if claim.1 <= 1 {
            if witness.len() > 0 {
                Ok(ProverStep::Done(ProverDone { claim, witness, opening: witness[0] }))
            } else {
                Err(Error::CodewordEmpty)
            }
        } else {
            let folded = fri_fold::<H::F>(witness, challenge);
            match spec_build_witness::<H>(folded) {
                Err(e) => Err(e),
                Ok(w) => {
                    let root = merkle_root_of::<H>(w);
                    Ok(
                        ProverStep::Continue(
                            ProverContinue { claim: (root, claim.1 / 2), witness: w, message: root },
                        ),
                    )
                },
            }
        }
    }

    /// The verifier takes the folded root as the new claim, with half the
    /// length; at length one it is also the opening.
    open spec fn spec_verifier_step(claim: (int, nat), message: int, challenge: int) -> Result<
        VerifierStep<(int, nat), int>,
        Error,
    > {
        if claim.1 <= 1 {
            Err(Error::StepOnFinished)
        } else if claim.1 / 2 <= 1 {
            Ok(VerifierStep::Done(VerifierDone { claim: (message, claim.1 / 2), opening: message }))
        } else {
            Ok(VerifierStep::Continue(VerifierContinue { claim: (message, claim.1 / 2) }))
        }
    }

    fn prover_step(claim: FriClaim<H::F>, witness: FriWitness<H>, challenge: H::F) -> (r: Result<
        ProverStep<FriClaim<H::F>, FriWitness<H>, FriRoundMsg<H::F>, FriOpening<H::F>>,
        Error,
    >) {
        if claim.codeword_len <= 1 {
            if witness.codeword.len() > 0 {
                let val = witness.codeword[0];
                Ok(ProverStep::Done(ProverDone::new(claim, witness, FriOpening::new(val))))
            } else {
                Err(Error::CodewordEmpty)
            }
        } else {
            let folded = fold_codeword(witness.codeword.as_slice(), challenge);
            let new_witness = match FriWitness::<H>::build(folded) {
                Ok(w) => w,
                Err(e) => return Err(e),
            };
            let new_root = match new_witness.merkle_root() {
                Ok(root) => root,
                Err(e) => return Err(e),
            };
            let msg = FriRoundMsg::new(new_root);
            Ok(
                ProverStep::Continue(
                    ProverContinue::new(
                        FriClaim::new(new_root, claim.codeword_len / 2),
                        new_witness,
                        msg,
                    ),
                ),
            )
        }
    }

    fn verifier_step(claim: FriClaim<H::F>, message: FriRoundMsg<H::F>, challenge: H::F) -> (r: Result<
        VerifierStep<FriClaim<H::F>, FriOpening<H::F>>,
        Error,
    >) {
        if claim.codeword_len <= 1 {
            Err(Error::StepOnFinished)
        } else {
            let new_len = claim.codeword_len / 2;
            if new_len <= 1 {
                Ok(
                    VerifierStep::Done(
                        VerifierDone::new(
                            FriClaim::new(message.folded_root, new_len),
                            FriOpening::new(message.folded_root),
                        ),
                    ),
                )
            } else {
                Ok(VerifierStep::Continue(VerifierContinue::new(FriClaim::new(message.folded_root, new_len))))
            }
        }
    }
}

} // verus!
