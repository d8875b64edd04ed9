//! What an honest FRI or WHIR round guarantees across prover and verifier.

use vstd::prelude::*;
use vstd::arithmetic::power::pow;
use vstd::arithmetic::power2::{is_pow2, is_pow2_equiv, lemma2_to64, lemma_pow2, lemma_pow2_pos, lemma_pow2_unfold, pow2};

use super::whir::{whir_fold_table, Whir};
use super::{fri_fold, merkle_root_of, spec_build_witness, Fri};
use crate::field::{all_in_field, in_field, Field};
use crate::hash::Hasher;
use crate::poly::multilinear::{even_part, fold_table, odd_part};
use crate::merkle::lemmas::lemma_pow2_halves;
use crate::merkle::merkle_layers;
use crate::prover::{spec_prove_rec, MAX_ROUNDS};
use crate::reduce::{ProverContinue, ProverDone, ProverStep, ReductionFunctor, VerifierContinue, VerifierDone, VerifierStep};
use crate::transcript::{absorb_all, Transcript};
use crate::verify::spec_verify_rec;

verus! {

/// An honest FRI round: when the claim names the root and length of a
/// committed codeword of at least two values, the prover's next claim names
/// the root and length of the folded codeword, and the verifier, given the
/// prover's message, reaches that same claim (opening it once one value is
/// left).
pub proof fn lemma_fri_round<H: Hasher>(claim: (int, nat), w: Seq<int>, challenge: int)
    requires
        w.len() >= 2,
        is_pow2(w.len() as int),
        claim == (merkle_root_of::<H>(w), w.len()),
    ensures
        Fri::<H>::spec_prover_step(claim, w, challenge) matches Ok(ProverStep::Continue(c)) && c.witness
            == fri_fold::<H::F>(w, challenge) && c.claim == (merkle_root_of::<H>(c.witness), c.witness.len())
            && Fri::<H>::spec_verifier_step(claim, c.message, challenge) == if c.claim.1 <= 1 {
            Ok::<VerifierStep<(int, nat), int>, super::Error>(
                VerifierStep::Done(VerifierDone { claim: c.claim, opening: c.message }),
            )
        } else {
            Ok::<VerifierStep<(int, nat), int>, super::Error>(
                VerifierStep::Continue(VerifierContinue { claim: c.claim }),
            )
        },
{
    lemma_pow2_halves(w.len() as int);
}

/// An honest WHIR round: when the claim names the commitment of a table of
/// `2^k` values, `k >= 1`, the prover's next claim names the commitment of
/// the folded table with `k - 1` variables, and the verifier, given the
/// prover's message, reaches that same claim (opening it at zero variables).
pub proof fn lemma_whir_round<H: Hasher>(claim: (int, nat), w: Seq<int>, challenge: int)
    requires
        w.len() >= 2,
        is_pow2(w.len() as int),
        claim.0 == merkle_root_of::<H>(w),
        claim.1 >= 1,
    ensures
        Whir::<H>::spec_prover_step(claim, w, challenge) matches Ok(ProverStep::Continue(c)) && c.witness
            == whir_fold_table::<H::F>(w, challenge) && c.claim == (merkle_root_of::<H>(c.witness), (claim.1 - 1) as nat)
            && Whir::<H>::spec_verifier_step(claim, c.message, challenge) == if claim.1 == 1 {
            Ok::<VerifierStep<(int, nat), int>, super::Error>(
                VerifierStep::Done(VerifierDone { claim: c.claim, opening: c.message }),
            )
        } else {
            Ok::<VerifierStep<(int, nat), int>, super::Error>(
                VerifierStep::Continue(VerifierContinue { claim: c.claim }),
            )
        },
{
    lemma_pow2_halves(w.len() as int);
}

proof fn lemma_pow2_is_pow2(k: nat)
    ensures
        is_pow2(pow2(k) as int),
{
    lemma_pow2(k);
    is_pow2_equiv(pow2(k) as int);
    assert(pow(2, k) == pow2(k) as int);
}

/// One honest FRI round on a codeword of `2^k` values, `k >= 1`: the prover
/// folds, commits and sends the new root; the verifier, given that root,
/// moves to the same claim, or in the last round opens the root, which is
/// then the one value left.
pub proof fn lemma_fri_honest_step<H: Hasher>(claim: (int, nat), w: Seq<int>, ch: int, k: nat)
    requires
        1 <= k,
        w.len() == pow2(k),
        claim.1 == w.len(),
    ensures
        ({
            let folded = fri_fold::<H::F>(w, ch);
            let root = merkle_root_of::<H>(folded);
            &&& folded.len() == pow2((k - 1) as nat)
            &&& Fri::<H>::spec_prover_step(claim, w, ch) == Ok::<ProverStep<(int, nat), Seq<int>, int, int>, super::Error>(
                ProverStep::Continue(ProverContinue { claim: (root, pow2((k - 1) as nat)), witness: folded, message: root }),
            )
            &&& Fri::<H>::spec_verifier_step(claim, root, ch) == if k == 1 {
                Ok::<VerifierStep<(int, nat), int>, super::Error>(
                    VerifierStep::Done(VerifierDone { claim: (root, 1), opening: root }),
                )
            } else {
                Ok::<VerifierStep<(int, nat), int>, super::Error>(
                    VerifierStep::Continue(VerifierContinue { claim: (root, pow2((k - 1) as nat)) }),
                )
            }
            &&& k == 1 ==> folded.len() == 1 && root == folded[0]
        }),
{
    let k1 = (k - 1) as nat;
    lemma_pow2_unfold(k);
    lemma_pow2_pos(k1);
    lemma_pow2_is_pow2(k1);
    let folded = fri_fold::<H::F>(w, ch);
    assert(folded.len() == pow2(k1));
    assert(spec_build_witness::<H>(folded) == Ok::<Seq<int>, super::Error>(folded));
    assert(claim.1 / 2 == pow2(k1));
    if k == 1 {
        lemma2_to64();
        assert(merkle_layers::<H>(folded) == seq![folded]);
    } else {
        lemma_pow2_unfold(k1);
        lemma_pow2_pos((k1 - 1) as nat);
    }
}

proof fn lemma_fri_complete_from<H: Hasher, T: Transcript<F = H::F>>(
    claim: (int, nat),
    w: Seq<int>,
    t: T::V,
    collected: Seq<int>,
    k: nat,
    rounds: nat,
)
    requires
        1 <= k,
        k + 1 <= rounds,
        w.len() == pow2(k),
        claim.1 == w.len(),
    ensures
        spec_prove_rec::<Fri<H>, T>(claim, w, t, collected, rounds) is Ok,
        ({
            let (msgs, opening, _) = spec_prove_rec::<Fri<H>, T>(claim, w, t, collected, rounds)->Ok_0;
            &&& msgs.len() == collected.len() + k
            &&& msgs.subrange(0, collected.len() as int) == collected
            &&& spec_verify_rec::<Fri<H>, T>(claim, msgs, t, collected.len()) is Ok
            &&& spec_verify_rec::<Fri<H>, T>(claim, msgs, t, collected.len())->Ok_0.0 == opening
        }),
    decreases k,
{
    let (t2, ch) = T::spec_squeeze(t);
    let k1 = (k - 1) as nat;
    lemma_fri_honest_step::<H>(claim, w, ch, k);
    let folded = fri_fold::<H::F>(w, ch);
    let root = merkle_root_of::<H>(folded);
    let c2 = (root, pow2(k1));
    let t3 = absorb_all::<T>(t2, seq![root]);
    let i = collected.len();
    let next = collected.push(root);
    if k == 1 {
        assert(Fri::<H>::spec_prover_step(c2, folded, T::spec_squeeze(t3).1) == Ok::<
            ProverStep<(int, nat), Seq<int>, int, int>,
            super::Error,
        >(ProverStep::Done(ProverDone { claim: c2, witness: folded, opening: folded[0] })));
        assert(spec_prove_rec::<Fri<H>, T>(c2, folded, t3, next, (rounds - 1) as nat) == Ok::<
            (Seq<int>, int, T::V),
            crate::prover::Error<super::Error>,
        >((next, folded[0], T::spec_squeeze(t3).0)));
        assert(next.subrange(0, i as int) =~= collected);
        assert(next[i as int] == root);
    } else {
        lemma_fri_complete_from::<H, T>(c2, folded, t3, next, k1, (rounds - 1) as nat);
        let msgs = spec_prove_rec::<Fri<H>, T>(c2, folded, t3, next, (rounds - 1) as nat)->Ok_0.0;
        assert(msgs.subrange(0, i as int + 1) == next);
        assert(msgs[i as int] == next[i as int]);
        assert(msgs.subrange(0, i as int) =~= collected) by {
            assert(msgs.subrange(0, i as int) =~= msgs.subrange(0, i as int + 1).subrange(0, i as int));
        }
    }
}

/// FRI is complete: for a codeword of `2^k` values, `k >= 1`, committed
/// under its Merkle root, the honest prover sends `k` folded roots, and the
/// verifier, drawing the same challenges, accepts them with the prover's
/// opening, the last value left.
pub proof fn lemma_fri_complete<H: Hasher, T: Transcript<F = H::F>>(w: Seq<int>, k: nat, t: T::V)
    requires
        1 <= k < MAX_ROUNDS,
        w.len() == pow2(k),
    ensures
        ({
            let claim = (merkle_root_of::<H>(w), w.len());
            &&& spec_prove_rec::<Fri<H>, T>(claim, w, t, Seq::empty(), MAX_ROUNDS as nat) is Ok
            &&& {
                let (msgs, opening, _) = spec_prove_rec::<Fri<H>, T>(claim, w, t, Seq::empty(), MAX_ROUNDS as nat)->Ok_0;
                &&& msgs.len() == k
                &&& spec_verify_rec::<Fri<H>, T>(claim, msgs, t, 0) is Ok
                &&& spec_verify_rec::<Fri<H>, T>(claim, msgs, t, 0)->Ok_0.0 == opening
            }
        }),
{
    lemma_fri_complete_from::<H, T>((merkle_root_of::<H>(w), w.len()), w, t, Seq::empty(), k, MAX_ROUNDS as nat);
}

proof fn lemma_whir_complete_from<H: Hasher, T: Transcript<F = H::F>>(
    claim: (int, nat),
    w: Seq<int>,
    t: T::V,
    collected: Seq<int>,
    rounds: nat,
)
    requires
        1 <= claim.1,
        claim.1 + 1 <= rounds,
        w.len() == pow2(claim.1),
    ensures
        spec_prove_rec::<Whir<H>, T>(claim, w, t, collected, rounds) is Ok,
        ({
            let (msgs, opening, _) = spec_prove_rec::<Whir<H>, T>(claim, w, t, collected, rounds)->Ok_0;
            &&& msgs.len() == collected.len() + claim.1
            &&& msgs.subrange(0, collected.len() as int) == collected
            &&& spec_verify_rec::<Whir<H>, T>(claim, msgs, t, collected.len()) is Ok
            &&& spec_verify_rec::<Whir<H>, T>(claim, msgs, t, collected.len())->Ok_0.0 == opening
        }),
    decreases claim.1,
{
    let (t2, ch) = T::spec_squeeze(t);
    let k1 = (claim.1 - 1) as nat;
    lemma_pow2_unfold(claim.1);
    lemma_pow2_pos(k1);
    lemma_pow2_is_pow2(k1);
    let folded = whir_fold_table::<H::F>(w, ch);
    assert(folded.len() == pow2(k1));
    assert(spec_build_witness::<H>(folded) == Ok::<Seq<int>, super::Error>(folded));
    let root = merkle_root_of::<H>(folded);
    let c2 = (root, k1);
    assert(Whir::<H>::spec_prover_step(claim, w, ch) == Ok::<ProverStep<(int, nat), Seq<int>, int, int>, super::Error>(
        ProverStep::Continue(ProverContinue { claim: c2, witness: folded, message: root }),
    ));
    let t3 = absorb_all::<T>(t2, seq![root]);
    let i = collected.len();
    let next = collected.push(root);
    if claim.1 == 1 {
        lemma2_to64();
        assert(folded.len() == 1);
        assert(merkle_layers::<H>(folded) == seq![folded]);
        assert(root == folded[0]);
        assert(Whir::<H>::spec_prover_step(c2, folded, T::spec_squeeze(t3).1) == Ok::<
            ProverStep<(int, nat), Seq<int>, int, int>,
            super::Error,
        >(ProverStep::Done(ProverDone { claim: c2, witness: folded, opening: folded[0] })));
        assert(spec_prove_rec::<Whir<H>, T>(c2, folded, t3, next, (rounds - 1) as nat) == Ok::<
            (Seq<int>, int, T::V),
            crate::prover::Error<super::Error>,
        >((next, folded[0], T::spec_squeeze(t3).0)));
        assert(next.subrange(0, i as int) =~= collected);
        assert(next[i as int] == root);
    } else {
        lemma_whir_complete_from::<H, T>(c2, folded, t3, next, (rounds - 1) as nat);
        let msgs = spec_prove_rec::<Whir<H>, T>(c2, folded, t3, next, (rounds - 1) as nat)->Ok_0.0;
        assert(msgs.subrange(0, i as int + 1) == next);
        assert(msgs[i as int] == next[i as int]);
        assert(msgs.subrange(0, i as int) =~= collected) by {
            assert(msgs.subrange(0, i as int) =~= msgs.subrange(0, i as int + 1).subrange(0, i as int));
        }
    }
}

/// WHIR is complete: for a table of `2^k` values, `k >= 1`, committed under
/// its Merkle root, the honest prover sends `k` commitments, and the
/// verifier, drawing the same challenges, accepts them with the prover's
/// opening, the last value left.
pub proof fn lemma_whir_complete<H: Hasher, T: Transcript<F = H::F>>(w: Seq<int>, k: nat, t: T::V)
    requires
        1 <= k < MAX_ROUNDS,
        w.len() == pow2(k),
    ensures
        ({
            let claim = (merkle_root_of::<H>(w), k);
            &&& spec_prove_rec::<Whir<H>, T>(claim, w, t, Seq::empty(), MAX_ROUNDS as nat) is Ok
            &&& {
                let (msgs, opening, _) = spec_prove_rec::<Whir<H>, T>(claim, w, t, Seq::empty(), MAX_ROUNDS as nat)->Ok_0;
                &&& msgs.len() == k
                &&& spec_verify_rec::<Whir<H>, T>(claim, msgs, t, 0) is Ok
                &&& spec_verify_rec::<Whir<H>, T>(claim, msgs, t, 0)->Ok_0.0 == opening
            }
        }),
{
    lemma_whir_complete_from::<H, T>((merkle_root_of::<H>(w), k), w, t, Seq::empty(), MAX_ROUNDS as nat);
}

/// Folding field values with a field challenge gives field values.
pub proof fn lemma_fri_fold_in_field<F: Field>(w: Seq<int>, r: int)
    requires
        all_in_field::<F>(w),
        in_field::<F>(r),
    ensures
        all_in_field::<F>(fri_fold::<F>(w, r)),
{
    let f = fri_fold::<F>(w, r);
    assert forall|i: int| 0 <= i < f.len() implies #[trigger] in_field::<F>(f[i]) by {
        assert(in_field::<F>(w[2 * i]));
        assert(in_field::<F>(w[2 * i + 1]));
        F::lemma_closed(w[2 * i + 1], w[2 * i]);
        F::lemma_closed(F::vsub(w[2 * i + 1], w[2 * i]), r);
        F::lemma_closed(w[2 * i], F::vmul(F::vsub(w[2 * i + 1], w[2 * i]), r));
    }
}

/// Folding a codeword is fixing the first variable of the table it holds:
/// `fold_r` on the rate-one codeword of `P` is the table of `P(r, ...)`, the
/// substitution that sumcheck makes with the same challenge.
pub proof fn lemma_fold_is_substitution<F: Field>(w: Seq<int>, r: int)
    ensures
        fri_fold::<F>(w, r) == fold_table::<F>(w, r),
{
    assert(fri_fold::<F>(w, r) =~= fold_table::<F>(w, r));
}

/// A WHIR fold reads the table in disjoint pairs: entry `i` of the folded
/// table is the even entry `w[2i]` plus the challenge times the odd entry
/// `w[2i+1]`, so the folded table is `even_part(w) + r * odd_part(w)`,
/// with half the entries; at challenge zero it is the even half itself.
pub proof fn lemma_whir_fold_halves<F: Field>(w: Seq<int>, r: int)
    ensures
        whir_fold_table::<F>(w, r).len() == even_part(w).len(),
        whir_fold_table::<F>(w, r).len() == odd_part(w).len(),
        forall|i: int|
            0 <= i < w.len() / 2 ==> #[trigger] whir_fold_table::<F>(w, r)[i] == F::vadd(
                even_part(w)[i],
                F::vmul(r, odd_part(w)[i]),
            ),
        all_in_field::<F>(w) ==> whir_fold_table::<F>(w, 0) == even_part(w),
{
    if all_in_field::<F>(w) {
        assert forall|i: int| 0 <= i < w.len() / 2 implies #[trigger] whir_fold_table::<F>(w, 0)[i]
            == even_part(w)[i] by {
            assert(in_field::<F>(w[2 * i]));
            assert(in_field::<F>(w[2 * i + 1]));
            F::lemma_mul_laws(w[2 * i + 1], 0, 0);
            F::lemma_mul_laws(0, w[2 * i + 1], 0);
            F::lemma_add_laws(w[2 * i], 0, 0);
        }
        assert(whir_fold_table::<F>(w, 0) =~= even_part(w));
    }
}

} // verus!
