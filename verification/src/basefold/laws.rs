//! What an honest BaseFold run guarantees across prover and verifier.

use vstd::prelude::*;
use vstd::arithmetic::power2::{lemma2_to64, lemma_pow2_unfold, pow2};

use super::BaseFold;
use crate::field::{all_in_field, in_field, lemma_sum_in_field, sum_values, Field};
use crate::fri::laws::{lemma_fold_is_substitution, lemma_fri_fold_in_field, lemma_fri_honest_step};
use crate::fri::{fri_fold, merkle_root_of};
use crate::hash::Hasher;
use crate::poly::multilinear::{even_part, odd_part};
use crate::prover::{spec_prove_rec, MAX_ROUNDS};
use crate::reduce::{
    InterleavedMsg, ProverContinue, ProverDone, ProverStep, ReductionFunctor, VerifierContinue, VerifierDone,
    VerifierStep,
};
use crate::sumcheck::interp::lagrange_value;
use crate::sumcheck::laws::{lemma_fold_in_field, lemma_honest_round_accepted, lemma_linear_claim_stays_true, lemma_linear_round_sum};
use crate::sumcheck::{LinearWitness, Sumcheck, SumcheckFunction};
use crate::transcript::{absorb_all, lemma_absorb_all_reachable, Transcript};
use crate::verify::spec_verify_rec;

verus! {

proof fn lemma_basefold_complete_from<H: Hasher, T: Transcript<F = H::F>>(
    claim: ((int, nat), (int, nat)),
    w: (Seq<int>, (nat, Seq<int>)),
    t: T::V,
    collected: Seq<InterleavedMsg<int, Seq<int>>>,
    k: nat,
    rounds: nat,
)
    requires
        1 <= k,
        k + 1 <= rounds,
        w.0.len() == pow2(k),
        all_in_field::<H::F>(w.0),
        claim.0.1 == w.0.len(),
        w.1.1 == w.0,
        claim.1 == (sum_values::<H::F>(w.1.1), k),
        T::spec_reachable(t),
    ensures
        spec_prove_rec::<BaseFold<H>, T>(claim, w, t, collected, rounds) is Ok,
        ({
            let (msgs, opening, _) = spec_prove_rec::<BaseFold<H>, T>(claim, w, t, collected, rounds)->Ok_0;
            &&& msgs.len() == collected.len() + k
            &&& msgs.subrange(0, collected.len() as int) == collected
            &&& spec_verify_rec::<BaseFold<H>, T>(claim, msgs, t, collected.len()) is Ok
            &&& spec_verify_rec::<BaseFold<H>, T>(claim, msgs, t, collected.len())->Ok_0.0 == opening
        }),
    decreases k,
{
    <H::F as Field>::lemma_order();
    T::lemma_reachable(t, 0);
    let (t2, ch) = T::spec_squeeze(t);
    let k1 = (k - 1) as nat;
    lemma_pow2_unfold(k);
    // the FRI half
    lemma_fri_honest_step::<H>(claim.0, w.0, ch, k);
    let folded = fri_fold::<H::F>(w.0, ch);
    let root = merkle_root_of::<H>(folded);
    let ca2 = (root, pow2(k1));
    // the sumcheck half
    assert(w.1.1.len() % 2 == 0);
    lemma_linear_claim_stays_true::<H::F>(claim.1, w.1, ch);
    lemma_linear_round_sum::<H::F>(w.1);
    lemma_honest_round_accepted::<LinearWitness<H::F>>(claim.1, w.1, ch);
    let m = LinearWitness::<H::F>::spec_round_poly_evals(w.1);
    let w2 = LinearWitness::<H::F>::spec_fix_variable(w.1, ch);
    lemma_fold_is_substitution::<H::F>(w.0, ch);
    assert(w2.1 == folded);
    let cb2 = (lagrange_value::<H::F>(m, ch), k1);
    assert(Sumcheck::<LinearWitness<H::F>>::spec_prover_step(claim.1, w.1, ch) == Ok::<
        ProverStep<(int, nat), (nat, Seq<int>), Seq<int>, int>,
        crate::sumcheck::Error,
    >(ProverStep::Continue(ProverContinue { claim: cb2, witness: w2, message: m })));
    // the interleaved round
    let c2 = (ca2, cb2);
    let msg = InterleavedMsg { msg_a: root, msg_b: m };
    assert(BaseFold::<H>::spec_prover_step(claim, w, ch) == Ok::<
        ProverStep<((int, nat), (int, nat)), (Seq<int>, (nat, Seq<int>)), InterleavedMsg<int, Seq<int>>, (int, int)>,
        crate::reduce::InterleaveError<crate::fri::Error, crate::sumcheck::Error, super::Error>,
    >(ProverStep::Continue(ProverContinue { claim: c2, witness: (folded, w2), message: msg })));
    // the absorbed values are field values
    assert(all_in_field::<H::F>(even_part(w.1.1))) by {
        assert forall|i: int| 0 <= i < even_part(w.1.1).len() implies #[trigger] in_field::<H::F>(even_part(w.1.1)[i]) by {
            assert(in_field::<H::F>(w.1.1[2 * i]));
        }
    }
    assert(all_in_field::<H::F>(odd_part(w.1.1))) by {
        assert forall|i: int| 0 <= i < odd_part(w.1.1).len() implies #[trigger] in_field::<H::F>(odd_part(w.1.1)[i]) by {
            assert(in_field::<H::F>(w.1.1[2 * i + 1]));
        }
    }
    lemma_sum_in_field::<H::F>(even_part(w.1.1));
    lemma_sum_in_field::<H::F>(odd_part(w.1.1));
    lemma_fri_fold_in_field::<H::F>(w.0, ch);
    crate::merkle::lemmas::lemma_merkle_root_in_field::<H>(folded);
    let absorbed = seq![root] + m;
    assert forall|i: int| 0 <= i < absorbed.len() implies 0 <= #[trigger] absorbed[i] < <H::F as Field>::order() by {
        if i > 0 {
            assert(absorbed[i] == m[i - 1]);
        }
    }
    let t3 = absorb_all::<T>(t2, absorbed);
    lemma_absorb_all_reachable::<T>(t2, absorbed);
    lemma_fold_in_field::<H::F>(w.1.1, ch);
    assert(w2.1.len() == pow2(k1));
    let i = collected.len();
    let next = collected.push(msg);
    if k == 1 {
        T::lemma_reachable(t3, 0);
        let ch2 = T::spec_squeeze(t3).1;
        assert(w2.1.len() == 1) by {
            lemma2_to64();
        }
        // both halves finish in the next round
        assert(in_field::<H::F>(w2.1[0]));
        assert(w2.1.drop_last() =~= Seq::<int>::empty());
        <H::F as Field>::lemma_add_laws(w2.1[0], 0, 0);
        assert(sum_values::<H::F>(w2.1.drop_last()) == 0);
        assert(sum_values::<H::F>(w2.1) == w2.1[0]);
        assert(root == folded[0]);
        assert(cb2.0 == w2.1[0]);
        let opening = (folded[0], w2.1[0]);
        assert(BaseFold::<H>::spec_prover_step(c2, (folded, w2), ch2) == Ok::<
            ProverStep<((int, nat), (int, nat)), (Seq<int>, (nat, Seq<int>)), InterleavedMsg<int, Seq<int>>, (int, int)>,
            crate::reduce::InterleaveError<crate::fri::Error, crate::sumcheck::Error, super::Error>,
        >(ProverStep::Done(ProverDone { claim: c2, witness: (folded, w2), opening })));
        assert(spec_prove_rec::<BaseFold<H>, T>(c2, (folded, w2), t3, next, (rounds - 1) as nat) == Ok::<
            (Seq<InterleavedMsg<int, Seq<int>>>, (int, int), T::V),
            crate::prover::Error<crate::reduce::InterleaveError<crate::fri::Error, crate::sumcheck::Error, super::Error>>,
        >((next, opening, T::spec_squeeze(t3).0)));
        assert(next.subrange(0, i as int) =~= collected);
        assert(next[i as int] == msg);
        assert(BaseFold::<H>::spec_verifier_step(claim, msg, ch) == Ok::<
            VerifierStep<((int, nat), (int, nat)), (int, int)>,
            crate::reduce::InterleaveError<crate::fri::Error, crate::sumcheck::Error, super::Error>,
        >(VerifierStep::Done(VerifierDone { claim: ((root, 1), (cb2.0, 0)), opening: (root, cb2.0) })));
    } else {
        lemma_basefold_complete_from::<H, T>(c2, (folded, w2), t3, next, k1, (rounds - 1) as nat);
        let msgs = spec_prove_rec::<BaseFold<H>, T>(c2, (folded, w2), t3, next, (rounds - 1) as nat)->Ok_0.0;
        assert(msgs.subrange(0, i as int + 1) == next);
        assert(msgs[i as int] == next[i as int]);
        assert(msgs.subrange(0, i as int) =~= collected) by {
            assert(msgs.subrange(0, i as int) =~= msgs.subrange(0, i as int + 1).subrange(0, i as int));
        }
        assert(BaseFold::<H>::spec_verifier_step(claim, msg, ch) == Ok::<
            VerifierStep<((int, nat), (int, nat)), (int, int)>,
            crate::reduce::InterleaveError<crate::fri::Error, crate::sumcheck::Error, super::Error>,
        >(VerifierStep::Continue(VerifierContinue { claim: c2 })));
    }
}

/// BaseFold is complete: for a table of `2^k` field values, `k >= 1`,
/// committed as its own rate-one codeword under its Merkle root, and the true
/// sum of the table, the honest prover sends `k` paired messages, and the
/// verifier, drawing the same challenges, accepts them with the prover's
/// opening: the last FRI value and the last sumcheck value agree, because
/// folding the codeword with a challenge is fixing a variable of the table.
pub proof fn lemma_basefold_complete<H: Hasher, T: Transcript<F = H::F>>(
    table: Seq<int>,
    k: nat,
    t: T::V,
)
    requires
        1 <= k < MAX_ROUNDS,
        table.len() == pow2(k),
        all_in_field::<H::F>(table),
        T::spec_reachable(t),
    ensures
        ({
            let claim = ((merkle_root_of::<H>(table), table.len()), (sum_values::<H::F>(table), k));
            let w = (table, (k, table));
            &&& spec_prove_rec::<BaseFold<H>, T>(claim, w, t, Seq::empty(), MAX_ROUNDS as nat) is Ok
            &&& {
                let (msgs, opening, _) = spec_prove_rec::<BaseFold<H>, T>(claim, w, t, Seq::empty(), MAX_ROUNDS as nat)->Ok_0;
                &&& msgs.len() == k
                &&& spec_verify_rec::<BaseFold<H>, T>(claim, msgs, t, 0) is Ok
                &&& spec_verify_rec::<BaseFold<H>, T>(claim, msgs, t, 0)->Ok_0.0 == opening
            }
        }),
{
    lemma_basefold_complete_from::<H, T>(
        ((merkle_root_of::<H>(table), table.len()), (sum_values::<H::F>(table), k)),
        (table, (k, table)),
        t,
        Seq::empty(),
        k,
        MAX_ROUNDS as nat,
    );
}

} // verus!
