//! What the sumcheck reduction guarantees across prover and verifier.

use vstd::prelude::*;

use super::interp::{basis_prefix, inv_or_one, lagrange_prefix, lagrange_value};
use super::binius::BiniusWitness;
use super::witness::{product_sum, LinearWitness, ProductWitness};
use super::{evals_claimed_sum, Sumcheck, SumcheckFunction};
use crate::field::sums::{fsum, lemma_fsum_in_field};
use crate::field::algebra::{lemma_add_rearrange, lemma_mul_neg, lemma_neg_one_inverse, lemma_neg_one_squared, lemma_pow_one};
use crate::field::{all_in_field, in_field, lemma_sum_in_field, of_nat, sum_values, BinaryField8, Field};
use crate::poly::multilinear::{even_part, fold_table, lemma_fold_table_sum, lemma_round_poly_sum, odd_part};
use crate::prover::{spec_prove_rec, MAX_ROUNDS};
use crate::reduce::{ProverContinue, ProverStep, ReductionFunctor, VerifierContinue, VerifierDone, VerifierStep};
use crate::transcript::{absorb_all, lemma_absorb_all_reachable, Transcript};
use crate::verify::spec_verify_rec;
use vstd::arithmetic::power2::{lemma_pow2_unfold, pow2};

verus! {

/// Interpolating two values at 0 and 1 gives the line through them:
/// `L(r) == s0 + (s1 - s0) * r`.
pub proof fn lemma_lagrange_two_points<F: Field>(s0: int, s1: int, r: int)
    requires
        in_field::<F>(s0),
        in_field::<F>(s1),
        in_field::<F>(r),
    ensures
        lagrange_value::<F>(seq![s0, s1], r) == F::vadd(s0, F::vmul(F::vsub(s1, s0), r)),
{
    F::lemma_order();
    let e = seq![s0, s1];
    let m = F::vneg(1);
    F::lemma_closed(1, 1);
    F::lemma_closed(0, 0);
    F::lemma_add_laws(0, 1, 0);
    F::lemma_add_laws(1, 0, 0);
    F::lemma_add_laws(0, 0, 0);
    // the points 0 and 1
    assert(of_nat::<F>(0) == 0);
    assert(of_nat::<F>(1) == 1) by {
        assert(of_nat::<F>(1) == F::vadd(of_nat::<F>(0), 1));
    }
    // 0 - 1 == -1, 1 - 0 == 1, r - 0 == r
    F::lemma_add_laws(m, 0, 0);
    assert(F::vsub(0, 1) == m);
    assert(F::vneg(0) == 0) by {
        F::lemma_add_laws(0, 0, 0);
        F::lemma_add_laws(F::vneg(0), 0, 0);
    }
    assert(F::vsub(1, 0) == 1);
    F::lemma_add_laws(r, 0, 0);
    assert(F::vsub(r, 0) == r);
    // the inverses of -1 and 1
    assert(m != 0) by {
        if m == 0 {
            assert(F::vneg(F::vneg(1)) == 1);
        }
    }
    lemma_neg_one_inverse::<F>();
    assert(inv_or_one::<F>(m) == m);
    lemma_pow_one::<F>(F::inv_exponent());
    assert(inv_or_one::<F>(1) == 1);
    // basis polynomials
    F::lemma_closed(r, 1);
    let rm1 = F::vsub(r, 1);
    F::lemma_mul_laws(1, rm1, 0);
    F::lemma_mul_laws(rm1, 1, 0);
    assert(basis_prefix::<F>(r, 0, 0) == 1);
    assert(basis_prefix::<F>(r, 0, 1) == 1);
    assert(basis_prefix::<F>(r, 0, 2) == F::vmul(F::vmul(1, rm1), m));
    let b0 = F::vmul(rm1, m);
    assert(basis_prefix::<F>(r, 0, 2) == b0);
    F::lemma_mul_laws(1, r, 0);
    F::lemma_mul_laws(r, 1, 0);
    assert(basis_prefix::<F>(r, 1, 0) == 1);
    assert(basis_prefix::<F>(r, 1, 1) == F::vmul(F::vmul(1, r), 1));
    assert(basis_prefix::<F>(r, 1, 2) == r);
    // b0 == 1 - r: (r + -1) * -1 == -r + 1
    F::lemma_closed(1, r);
    F::lemma_closed(r, r);
    F::lemma_add_laws(r, m, 0);
    F::lemma_add_laws(r, 1, 0);
    assert(rm1 == F::vadd(r, m));
    F::lemma_mul_laws(m, r, m);
    F::lemma_mul_laws(r, m, 0);
    F::lemma_mul_laws(rm1, m, 0);
    lemma_neg_one_squared::<F>();
    lemma_mul_neg::<F>(r, 1);
    let nr = F::vneg(r);
    assert(F::vmul(r, m) == nr);
    assert(b0 == F::vmul(m, F::vadd(r, m)));
    assert(b0 == F::vadd(F::vmul(m, r), F::vmul(m, m)));
    assert(b0 == F::vadd(nr, 1));
    F::lemma_add_laws(nr, 1, 0);
    F::lemma_add_laws(1, r, 0);
    assert(b0 == F::vsub(1, r));
    // the value: s0 * (1 - r) + s1 * r
    assert(lagrange_prefix::<F>(e, r, 0) == 0);
    F::lemma_closed(rm1, m);
    F::lemma_closed(s0, b0);
    F::lemma_add_laws(0, F::vmul(s0, b0), 0);
    F::lemma_add_laws(F::vmul(s0, b0), 0, 0);
    assert(lagrange_prefix::<F>(e, r, 1) == F::vadd(0, F::vmul(s0, b0)));
    assert(lagrange_prefix::<F>(e, r, 1) == F::vmul(s0, b0));
    let v = F::vadd(F::vmul(s0, b0), F::vmul(s1, r));
    assert(lagrange_value::<F>(e, r) == v);
    // s0 * (1 + -r) == s0 + -(s0 r)
    let s0r = F::vmul(s0, r);
    let s1r = F::vmul(s1, r);
    F::lemma_closed(s0, r);
    F::lemma_closed(s1, r);
    F::lemma_mul_laws(s0, 1, nr);
    F::lemma_mul_laws(s0, 1, 0);
    lemma_mul_neg::<F>(s0, r);
    let ns0r = F::vneg(s0r);
    F::lemma_closed(s0r, s0r);
    assert(F::vmul(s0, b0) == F::vadd(s0, ns0r));
    // (s1 - s0) * r == s1 r + -(s0 r)
    F::lemma_closed(s1, s0);
    F::lemma_closed(s0, s1);
    let ns0 = F::vneg(s0);
    F::lemma_add_laws(s1, ns0, 0);
    F::lemma_add_laws(s1, s0, 0);
    F::lemma_mul_laws(r, s1, ns0);
    F::lemma_mul_laws(F::vsub(s1, s0), r, 0);
    F::lemma_mul_laws(s1, r, 0);
    F::lemma_mul_laws(s0, r, 0);
    lemma_mul_neg::<F>(r, s0);
    assert(F::vmul(F::vsub(s1, s0), r) == F::vmul(r, F::vadd(s1, ns0)));
    assert(F::vmul(F::vsub(s1, s0), r) == F::vadd(s1r, ns0r));
    // (s0 + -(s0 r)) + s1 r == s0 + (s1 r + -(s0 r))
    F::lemma_add_laws(s0, ns0r, s1r);
    F::lemma_add_laws(ns0r, s1r, 0);
}

/// An honest round message is accepted: when the round polynomial's values
/// at 0 and 1 add up to the claimed sum, the verifier, given the prover's
/// message and the same challenge, moves to the prover's next claim (and,
/// in the last round, opens it).
pub proof fn lemma_honest_round_accepted<W: SumcheckFunction>(claim: (int, nat), witness: W::V, challenge: int)
    requires
        claim.1 > 0,
        evals_claimed_sum::<W::F>(W::spec_round_poly_evals(witness)) == claim.0,
    ensures
        Sumcheck::<W>::spec_prover_step(claim, witness, challenge) matches Ok(ProverStep::Continue(c))
            && Sumcheck::<W>::spec_verifier_step(claim, c.message, challenge) == if claim.1 == 1 {
            Ok::<VerifierStep<(int, nat), int>, super::Error>(
                VerifierStep::Done(VerifierDone { claim: c.claim, opening: c.claim.0 }),
            )
        } else {
            Ok::<VerifierStep<(int, nat), int>, super::Error>(
                VerifierStep::Continue(VerifierContinue { claim: c.claim }),
            )
        },
{
}

/// The linear witness's round polynomial adds up to its sum over the
/// hypercube: `s(0) + s(1) == sum_x P(x)`.
pub proof fn lemma_linear_round_sum<F: Field>(w: (nat, Seq<int>))
    requires
        all_in_field::<F>(w.1),
        w.1.len() % 2 == 0,
    ensures
        evals_claimed_sum::<F>(LinearWitness::<F>::spec_round_poly_evals(w)) == sum_values::<F>(w.1),
{
    lemma_round_poly_sum::<F>(w.1);
}

/// An honest round keeps the claim true: if the claim is the sum of the
/// linear witness over the hypercube, the prover's next claim is the sum of
/// the witness with its first variable fixed to the challenge.
pub proof fn lemma_linear_claim_stays_true<F: Field>(claim: (int, nat), w: (nat, Seq<int>), challenge: int)
    requires
        claim.1 > 0,
        all_in_field::<F>(w.1),
        w.1.len() % 2 == 0,
        in_field::<F>(challenge),
    ensures
        Sumcheck::<LinearWitness<F>>::spec_prover_step(claim, w, challenge) matches Ok(
            ProverStep::Continue(c),
        ) && c.claim.0 == sum_values::<F>(c.witness.1) && c.witness == LinearWitness::<F>::spec_fix_variable(
            w,
            challenge,
        ),
{
    let s0 = sum_values::<F>(even_part(w.1));
    let s1 = sum_values::<F>(odd_part(w.1));
    assert(all_in_field::<F>(even_part(w.1))) by {
        assert forall|i: int| 0 <= i < even_part(w.1).len() implies #[trigger] in_field::<F>(even_part(w.1)[i]) by {
            assert(in_field::<F>(w.1[2 * i]));
        }
    }
    assert(all_in_field::<F>(odd_part(w.1))) by {
        assert forall|i: int| 0 <= i < odd_part(w.1).len() implies #[trigger] in_field::<F>(odd_part(w.1)[i]) by {
            assert(in_field::<F>(w.1[2 * i + 1]));
        }
    }
    lemma_sum_in_field::<F>(even_part(w.1));
    lemma_sum_in_field::<F>(odd_part(w.1));
    lemma_lagrange_two_points::<F>(s0, s1, challenge);
    lemma_fold_table_sum::<F>(w.1, challenge);
}

/// Folding a table of field values gives field values, half as many.
pub proof fn lemma_fold_in_field<F: Field>(t: Seq<int>, r: int)
    requires
        all_in_field::<F>(t),
        in_field::<F>(r),
    ensures
        all_in_field::<F>(fold_table::<F>(t, r)),
        fold_table::<F>(t, r).len() == t.len() / 2,
{
    let f = fold_table::<F>(t, r);
    assert forall|i: int| 0 <= i < f.len() implies #[trigger] in_field::<F>(f[i]) by {
        assert(in_field::<F>(t[2 * i]));
        assert(in_field::<F>(t[2 * i + 1]));
        F::lemma_closed(t[2 * i + 1], t[2 * i]);
        F::lemma_closed(F::vsub(t[2 * i + 1], t[2 * i]), r);
        F::lemma_closed(t[2 * i], F::vmul(F::vsub(t[2 * i + 1], t[2 * i]), r));
    }
}

/// `W` works on one multilinear table as the linear witness does: the same
/// round polynomial, the same folding and the same final value.
pub open spec fn sums_as_linear<F: Field, W: SumcheckFunction<F = F, V = (nat, Seq<int>)>>() -> bool {
    &&& forall|w: (nat, Seq<int>)| #[trigger] W::spec_round_poly_evals(w) == LinearWitness::<F>::spec_round_poly_evals(w)
    &&& forall|w: (nat, Seq<int>), r: int| #[trigger] W::spec_fix_variable(w, r) == LinearWitness::<F>::spec_fix_variable(w, r)
    &&& forall|w: (nat, Seq<int>)| #[trigger] W::spec_final_value(w) == LinearWitness::<F>::spec_final_value(w)
}

proof fn lemma_complete_from<F: Field, W: SumcheckFunction<F = F, V = (nat, Seq<int>)>, T: Transcript<F = F>>(
    claim: (int, nat),
    w: (nat, Seq<int>),
    t: T::V,
    collected: Seq<Seq<int>>,
    rounds: nat,
)
    requires
        1 <= claim.1,
        claim.1 + 1 <= rounds,
        w.1.len() == pow2(claim.1),
        all_in_field::<F>(w.1),
        claim.0 == sum_values::<F>(w.1),
        T::spec_reachable(t),
        sums_as_linear::<F, W>(),
    ensures
        spec_prove_rec::<Sumcheck<W>, T>(claim, w, t, collected, rounds) is Ok,
        ({
            let (msgs, opening, _) = spec_prove_rec::<Sumcheck<W>, T>(
                claim,
                w,
                t,
                collected,
                rounds,
            )->Ok_0;
            &&& msgs.len() == collected.len() + claim.1
            &&& msgs.subrange(0, collected.len() as int) == collected
            &&& spec_verify_rec::<Sumcheck<W>, T>(claim, msgs, t, collected.len()) is Ok
            &&& spec_verify_rec::<Sumcheck<W>, T>(claim, msgs, t, collected.len())->Ok_0.0
                == opening
        }),
    decreases claim.1,
{
    F::lemma_order();
    T::lemma_reachable(t, 0);
    let (t2, ch) = T::spec_squeeze(t);
    lemma_pow2_unfold(claim.1);
    assert(w.1.len() % 2 == 0);
    lemma_linear_claim_stays_true::<F>(claim, w, ch);
    lemma_linear_round_sum::<F>(w);
    lemma_honest_round_accepted::<W>(claim, w, ch);
    let m = LinearWitness::<F>::spec_round_poly_evals(w);
    let w2 = LinearWitness::<F>::spec_fix_variable(w, ch);
    assert(W::spec_round_poly_evals(w) == m);
    assert(W::spec_fix_variable(w, ch) == w2);
    let c2 = (lagrange_value::<F>(m, ch), (claim.1 - 1) as nat);
    assert(Sumcheck::<W>::spec_prover_step(claim, w, ch) == Ok::<
        ProverStep<(int, nat), (nat, Seq<int>), Seq<int>, int>,
        super::Error,
    >(ProverStep::Continue(ProverContinue { claim: c2, witness: w2, message: m })));
    // the message's values are field values
    assert(all_in_field::<F>(even_part(w.1))) by {
        assert forall|i: int| 0 <= i < even_part(w.1).len() implies #[trigger] in_field::<F>(even_part(w.1)[i]) by {
            assert(in_field::<F>(w.1[2 * i]));
        }
    }
    assert(all_in_field::<F>(odd_part(w.1))) by {
        assert forall|i: int| 0 <= i < odd_part(w.1).len() implies #[trigger] in_field::<F>(odd_part(w.1)[i]) by {
            assert(in_field::<F>(w.1[2 * i + 1]));
        }
    }
    lemma_sum_in_field::<F>(even_part(w.1));
    lemma_sum_in_field::<F>(odd_part(w.1));
    assert forall|i: int| 0 <= i < m.len() implies 0 <= #[trigger] m[i] < F::order() by {
    }
    let t3 = absorb_all::<T>(t2, m);
    lemma_absorb_all_reachable::<T>(t2, m);
    lemma_fold_in_field::<F>(w.1, ch);
    assert(w2.1.len() == pow2((claim.1 - 1) as nat));
    let i = collected.len();
    let next = collected.push(m);
    if claim.1 == 1 {
        // the prover opens the last value next round
        T::lemma_reachable(t3, 0);
        assert(w2.1.len() == 1) by {
            vstd::arithmetic::power2::lemma2_to64();
        }
        assert(LinearWitness::<F>::spec_final_value(w2) == Some(w2.1[0]));
        assert(W::spec_final_value(w2) == Some(w2.1[0]));
        assert(spec_prove_rec::<Sumcheck<W>, T>(c2, w2, t3, next, (rounds - 1) as nat) == Ok::<
            (Seq<Seq<int>>, int, T::V),
            crate::prover::Error<super::Error>,
        >((next, w2.1[0], T::spec_squeeze(t3).0)));
        // the claim's value is that last value
        assert(in_field::<F>(w2.1[0]));
        assert(w2.1.drop_last() =~= Seq::<int>::empty());
        F::lemma_add_laws(w2.1[0], 0, 0);
        assert(sum_values::<F>(w2.1.drop_last()) == 0);
        assert(w2.1.last() == w2.1[0]);
        assert(sum_values::<F>(w2.1) == F::vadd(0, w2.1[0]));
        assert(sum_values::<F>(w2.1) == w2.1[0]);
        assert(next.subrange(0, i as int) =~= collected);
        assert(next[i as int] == m);
    } else {
        lemma_complete_from::<F, W, T>(c2, w2, t3, next, (rounds - 1) as nat);
        let msgs = spec_prove_rec::<Sumcheck<W>, T>(c2, w2, t3, next, (rounds - 1) as nat)->Ok_0.0;
        assert(msgs.subrange(0, i as int + 1) == next);
        assert(msgs[i as int] == next[i as int]);
        assert(msgs.subrange(0, i as int) =~= collected) by {
            assert(msgs.subrange(0, i as int) =~= msgs.subrange(0, i as int + 1).subrange(0, i as int));
        }
    }
}

/// Sumcheck over one multilinear polynomial is complete: for a true claim
/// in `k >= 1` variables, the messages of the honest prover, checked by the
/// verifier from the same transcript, are accepted with the prover's
/// opening.
pub proof fn lemma_sumcheck_complete<F: Field, T: Transcript<F = F>>(claim: (int, nat), w: (nat, Seq<int>), t: T::V)
    requires
        1 <= claim.1 < MAX_ROUNDS,
        w.1.len() == pow2(claim.1),
        all_in_field::<F>(w.1),
        claim.0 == sum_values::<F>(w.1),
        T::spec_reachable(t),
    ensures
        spec_prove_rec::<Sumcheck<LinearWitness<F>>, T>(claim, w, t, Seq::empty(), MAX_ROUNDS as nat) is Ok,
        ({
            let (msgs, opening, _) = spec_prove_rec::<Sumcheck<LinearWitness<F>>, T>(
                claim,
                w,
                t,
                Seq::empty(),
                MAX_ROUNDS as nat,
            )->Ok_0;
            &&& msgs.len() == claim.1
            &&& spec_verify_rec::<Sumcheck<LinearWitness<F>>, T>(claim, msgs, t, 0) is Ok
            &&& spec_verify_rec::<Sumcheck<LinearWitness<F>>, T>(claim, msgs, t, 0)->Ok_0.0 == opening
        }),
{
    lemma_complete_from::<F, LinearWitness<F>, T>(claim, w, t, Seq::empty(), MAX_ROUNDS as nat);
}

/// Sumcheck over GF(2^8) is complete in the same way: for a true claim in
/// `k >= 1` variables, the honest prover's messages are accepted with its
/// opening.
pub proof fn lemma_binius_sumcheck_complete<T: Transcript<F = BinaryField8>>(
    claim: (int, nat),
    w: (nat, Seq<int>),
    t: T::V,
)
    requires
        1 <= claim.1 < MAX_ROUNDS,
        w.1.len() == pow2(claim.1),
        all_in_field::<BinaryField8>(w.1),
        claim.0 == sum_values::<BinaryField8>(w.1),
        T::spec_reachable(t),
    ensures
        spec_prove_rec::<Sumcheck<BiniusWitness>, T>(claim, w, t, Seq::empty(), MAX_ROUNDS as nat) is Ok,
        ({
            let (msgs, opening, _) = spec_prove_rec::<Sumcheck<BiniusWitness>, T>(
                claim,
                w,
                t,
                Seq::empty(),
                MAX_ROUNDS as nat,
            )->Ok_0;
            &&& msgs.len() == claim.1
            &&& spec_verify_rec::<Sumcheck<BiniusWitness>, T>(claim, msgs, t, 0) is Ok
            &&& spec_verify_rec::<Sumcheck<BiniusWitness>, T>(claim, msgs, t, 0)->Ok_0.0 == opening
        }),
{
    lemma_complete_from::<BinaryField8, BiniusWitness, T>(claim, w, t, Seq::empty(), MAX_ROUNDS as nat);
}

proof fn lemma_product_sums_pair<F: Field>(a: Seq<int>, b: Seq<int>, h: nat)
    requires
        2 * h <= a.len(),
        2 * h <= b.len(),
        all_in_field::<F>(a),
        all_in_field::<F>(b),
    ensures
        F::vadd(product_sum::<F>(a, b, 0, h), product_sum::<F>(a, b, 1, h)) == fsum::<F>(
            |j: int| F::vmul(a[j], b[j]),
            2 * h,
        ),
        in_field::<F>(product_sum::<F>(a, b, 0, h)),
        in_field::<F>(product_sum::<F>(a, b, 1, h)),
    decreases h,
{
    F::lemma_order();
    let f = |j: int| F::vmul(a[j], b[j]);
    if h == 0 {
        F::lemma_add_laws(0, 0, 0);
    } else {
        let h1 = (h - 1) as nat;
        lemma_product_sums_pair::<F>(a, b, h1);
        let i: int = (2 * h1) as int;
        assert(in_field::<F>(a[i]) && in_field::<F>(b[i]));
        assert(in_field::<F>(a[i + 1]) && in_field::<F>(b[i + 1]));
        F::lemma_closed(a[i], b[i]);
        F::lemma_closed(a[i + 1], b[i + 1]);
        let p0 = product_sum::<F>(a, b, 0, h1);
        let p1 = product_sum::<F>(a, b, 1, h1);
        assert(product_sum::<F>(a, b, 0, h) == F::vadd(p0, f(i)));
        assert(product_sum::<F>(a, b, 1, h) == F::vadd(p1, f(i + 1)));
        assert(fsum::<F>(f, (i + 1) as nat) == F::vadd(fsum::<F>(f, i as nat), f(i)));
        assert(fsum::<F>(f, 2 * h) == F::vadd(fsum::<F>(f, (i + 1) as nat), f(i + 1)));
        lemma_add_rearrange::<F>(p0, f(i), p1, f(i + 1));
        assert forall|j: int| 0 <= j < i implies #[trigger] in_field::<F>(f(j)) by {
            assert(in_field::<F>(a[j]) && in_field::<F>(b[j]));
            F::lemma_closed(a[j], b[j]);
        }
        lemma_fsum_in_field::<F>(f, i as nat);
        F::lemma_add_laws(fsum::<F>(f, i as nat), f(i), f(i + 1));
        F::lemma_closed(p0, f(i));
        F::lemma_closed(p1, f(i + 1));
    }
}

/// The product witness's round polynomial adds up to the sum of the products
/// over the hypercube: `s(0) + s(1) == sum_x a(x) b(x)`; so an honest round
/// of a true product claim is accepted (`lemma_honest_round_accepted`).
pub proof fn lemma_product_round_sum<F: Field>(w: ((nat, Seq<int>), (nat, Seq<int>)))
    requires
        all_in_field::<F>(w.0.1),
        all_in_field::<F>(w.1.1),
        w.0.1.len() % 2 == 0,
        w.0.1.len() <= w.1.1.len(),
    ensures
        evals_claimed_sum::<F>(ProductWitness::<F>::spec_round_poly_evals(w)) == fsum::<F>(
            |j: int| F::vmul(w.0.1[j], w.1.1[j]),
            w.0.1.len(),
        ),
{
    let h = w.0.1.len() / 2;
    lemma_product_sums_pair::<F>(w.0.1, w.1.1, h);
    assert(2 * h == w.0.1.len());
}

/// Each sumcheck round is sound: with variables left, the verifier accepts
/// a round message exactly when its values at 0 and 1 (a missing value
/// counting as zero) add up to the current claim, and refuses any other
/// message with `RoundSumMismatch`, in the last round as in every other.
pub proof fn lemma_round_accepts_only_true_sums<W: SumcheckFunction>(
    claim: (int, nat),
    message: Seq<int>,
    challenge: int,
)
    requires
        claim.1 > 0,
    ensures
        ({
            let s0 = if message.len() > 0 {
                message[0]
            } else {
                0
            };
            let s1 = if message.len() > 1 {
                message[1]
            } else {
                0
            };
            &&& W::F::vadd(s0, s1) != claim.0 ==> Sumcheck::<W>::spec_verifier_step(claim, message, challenge)
                == Err::<VerifierStep<(int, nat), int>, super::Error>(super::Error::RoundSumMismatch)
            &&& W::F::vadd(s0, s1) == claim.0 ==> Sumcheck::<W>::spec_verifier_step(claim, message, challenge) is Ok
        }),
{
}

/// An accepted linear round moves the claim to the round line at the
/// challenge: for a message `(s0, s1)` with `s0 + s1` equal to the claim,
/// the next claim is `s0 + (s1 - s0) * r` with one variable fewer, and in
/// the last round that value is also the opening.
pub proof fn lemma_round_moves_to_line<W: SumcheckFunction>(claim: (int, nat), s0: int, s1: int, r: int)
    requires
        claim.1 > 0,
        in_field::<W::F>(s0),
        in_field::<W::F>(s1),
        in_field::<W::F>(r),
        W::F::vadd(s0, s1) == claim.0,
    ensures
        ({
            let line = W::F::vadd(s0, W::F::vmul(W::F::vsub(s1, s0), r));
            Sumcheck::<W>::spec_verifier_step(claim, seq![s0, s1], r) == if claim.1 == 1 {
                Ok::<VerifierStep<(int, nat), int>, super::Error>(
                    VerifierStep::Done(VerifierDone { claim: (line, 0), opening: line }),
                )
            } else {
                Ok::<VerifierStep<(int, nat), int>, super::Error>(
                    VerifierStep::Continue(VerifierContinue { claim: (line, (claim.1 - 1) as nat) }),
                )
            }
        }),
{
    lemma_lagrange_two_points::<W::F>(s0, s1, r);
}

} // verus!
