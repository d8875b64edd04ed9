use plonky_cat::basefold::{
    BaseFold, BaseFoldAdapter, BaseFoldOpening, BaseFoldShared, BaseFoldWitness, FriLens, FriWitnessLens, SumcheckLens,
    SumcheckWitnessLens, Error as BaseFoldError,
};
use plonky_cat::code::{rs_encode, RsParams};
use plonky_cat::field::{BabyBear, BinaryField8, Field};
use plonky_cat::fri::{
    fold_codeword, Error as FriError, Fri, FriClaim, FriOpening, FriRoundMsg, FriWitness, Whir, WhirClaim,
    WhirOpening, WhirRoundMsg, WhirWitness,
};
use plonky_cat::hash::AlgebraicHash;
use plonky_cat::plonk::{constraint_poly, AddGate, PlonkTrace};
use plonky_cat::poly::MultilinearPoly;
use plonky_cat::prover::{prove, Error as ProveError, Proof};
use plonky_cat::reduce::{
    ClaimAdapter, ClaimLens, InterleaveError, InterleavedMsg, ProverContinue, ProverDone, ProverStep, ReductionFunctor,
    TranscriptSerialize, VerifierContinue, VerifierDone, VerifierStep,
};
use plonky_cat::sumcheck::{
    BiniusWitness, Error as SumcheckError, LinearWitness, ProductWitness, SumOfProductsWitness, Sumcheck, SumcheckClaim,
    SumcheckFunction, SumcheckOpening, SumcheckRoundMsg,
};
use plonky_cat::transcript::{AlgebraicTranscript, Transcript};
use plonky_cat::verify::{verify, Error as VerifyError, Verdict};

type F = BabyBear;
type H = AlgebraicHash<F>;

fn bb(v: u64) -> F {
    F::from(v)
}

fn bbs(vs: &[u64]) -> Vec<F> {
    vs.iter().map(|v| bb(*v)).collect()
}

fn poly(vs: &[u64], k: usize) -> MultilinearPoly<F> {
    MultilinearPoly::from_evals(k, bbs(vs)).unwrap()
}

#[test]
fn transcript_values() {
    let t = AlgebraicTranscript::<F>::new();
    let (t, c0) = t.squeeze();
    assert_eq!(c0, F::zero());
    let t = t.absorb(bb(5));
    let (_, c1) = t.squeeze();
    assert_eq!(c1, bb(1093532519));
}

#[test]
fn transcript_is_deterministic() {
    let a = AlgebraicTranscript::<F>::new().absorb(bb(7)).absorb(bb(8));
    let b = AlgebraicTranscript::<F>::new().absorb(bb(7)).absorb(bb(8));
    assert_eq!(a.squeeze().1, b.squeeze().1);
}

#[test]
fn sumcheck_end_to_end() {
    let p = poly(&[1, 2, 3, 4], 2);
    let claimed_sum = p.sum_over_hypercube();
    let claim = SumcheckClaim::new(claimed_sum, 2);
    let witness = LinearWitness::new(p);
    let (proof, _) =
        prove::<Sumcheck<LinearWitness<F>>, _>(claim, witness, AlgebraicTranscript::<F>::new()).unwrap();
    assert_eq!(proof.messages().len(), 2);
    let (verdict, _) = verify::<Sumcheck<LinearWitness<F>>, _>(
        SumcheckClaim::new(claimed_sum, 2),
        proof.messages(),
        AlgebraicTranscript::<F>::new(),
    )
    .unwrap();
    match verdict {
        Verdict::Accept(opening) => assert_eq!(opening, *proof.opening()),
    }
}

#[test]
fn sumcheck_rejects_a_false_claim() {
    let p = poly(&[1, 2, 3, 4], 2);
    let claim = SumcheckClaim::new(bb(11), 2);
    let (proof, _) =
        prove::<Sumcheck<LinearWitness<F>>, _>(claim, LinearWitness::new(p), AlgebraicTranscript::<F>::new()).unwrap();
    let r = verify::<Sumcheck<LinearWitness<F>>, _>(
        SumcheckClaim::new(bb(11), 2),
        proof.messages(),
        AlgebraicTranscript::<F>::new(),
    );
    assert!(matches!(r, Err(VerifyError::Reduction(SumcheckError::RoundSumMismatch))));
}

#[test]
fn verifier_driver_errors() {
    let none: Vec<SumcheckRoundMsg<F>> = vec![];
    let r = verify::<Sumcheck<LinearWitness<F>>, _>(SumcheckClaim::new(bb(0), 1), &none, AlgebraicTranscript::<F>::new());
    assert!(matches!(r, Err(VerifyError::ProtocolNotDone { messages_consumed: 0 })));
    let msgs = vec![SumcheckRoundMsg::new(bbs(&[0, 0])), SumcheckRoundMsg::new(bbs(&[0, 0]))];
    let r = verify::<Sumcheck<LinearWitness<F>>, _>(SumcheckClaim::new(bb(0), 1), &msgs, AlgebraicTranscript::<F>::new());
    assert!(matches!(r, Err(VerifyError::UnexpectedDone { round: 0 })));
}

#[test]
fn sumcheck_round_message() {
    let m = SumcheckRoundMsg::new(bbs(&[4, 6]));
    assert_eq!(m.degree(), 1);
    assert_eq!(m.claimed_sum(), bb(10));
    // the line through (0, 4) and (1, 6) at 5 is 14
    assert_eq!(m.evaluate_at(bb(5)), bb(14));
    let q = SumcheckRoundMsg::new(bbs(&[1, 4, 9]));
    // x^2 + 2x + 1 at 3
    assert_eq!(q.evaluate_at(bb(3)), bb(16));
    assert_eq!(q.to_field_elements(), bbs(&[1, 4, 9]));
    assert_eq!(SumcheckRoundMsg::<F>::new(vec![]).degree(), 0);
    assert_eq!(SumcheckOpening::new(bb(3)).value(), bb(3));
    assert_eq!(SumcheckOpening::new(bb(3)).to_field_elements(), bbs(&[3]));
}

#[test]
fn sumcheck_steps() {
    let claim = SumcheckClaim::new(bb(10), 2);
    assert_eq!(claim.claimed_sum(), bb(10));
    assert_eq!(claim.num_vars_remaining(), 2);
    let w = LinearWitness::new(poly(&[1, 2, 3, 4], 2));
    match Sumcheck::<LinearWitness<F>>::prover_step(claim, w, bb(5)).unwrap() {
        ProverStep::Continue(c) => {
            let (next, w2, msg) = c.into_parts();
            assert_eq!(msg.evals(), &bbs(&[4, 6])[..]);
            assert_eq!(next.claimed_sum(), bb(14));
            assert_eq!(next.num_vars_remaining(), 1);
            assert_eq!(w2.into_poly().sum_over_hypercube(), bb(14));
        }
        ProverStep::Done(_) => panic!("expected a round"),
    }
    let done = SumcheckClaim::new(bb(0), 0);
    let w = LinearWitness::new(poly(&[7], 0));
    match Sumcheck::<LinearWitness<F>>::prover_step(done, w, bb(5)).unwrap() {
        ProverStep::Done(d) => {
            let (_, _, opening) = d.into_parts();
            assert_eq!(opening.value(), bb(7));
        }
        ProverStep::Continue(_) => panic!("expected the end"),
    }
    let r = Sumcheck::<LinearWitness<F>>::verifier_step(SumcheckClaim::new(bb(0), 0), SumcheckRoundMsg::new(vec![]), bb(1));
    assert!(matches!(r, Err(SumcheckError::StepOnFinished)));
    let r = Sumcheck::<LinearWitness<F>>::prover_step(SumcheckClaim::new(bb(0), 0), LinearWitness::new(poly(&[7], 0)).fix_variable(bb(1)), bb(1));
    assert!(matches!(r, Err(SumcheckError::WitnessEmpty)));
}

#[test]
fn product_witness_round() {
    let a = poly(&[1, 2, 3, 4], 2);
    let b = poly(&[5, 6, 7, 8], 2);
    let w = ProductWitness::new(a, b);
    assert_eq!(w.num_vars(), 2);
    assert_eq!(w.round_poly_degree(), 2);
    // s(0) = 1*5 + 3*7, s(1) = 2*6 + 4*8, s(2) = 3*7 + 5*9
    assert_eq!(w.round_poly_evals(), bbs(&[26, 44, 66]));
    let fixed = w.fix_variable(bb(0));
    assert_eq!(fixed.final_value(), Some(bb(5)));
}

#[test]
fn product_sumcheck_end_to_end() {
    let a = poly(&[1, 2, 3, 4], 2);
    let b = poly(&[5, 6, 7, 8], 2);
    let sum = bb(1 * 5 + 2 * 6 + 3 * 7 + 4 * 8);
    let claim = SumcheckClaim::new(sum, 2);
    let (proof, _) =
        prove::<Sumcheck<ProductWitness<F>>, _>(claim, ProductWitness::new(a, b), AlgebraicTranscript::<F>::new()).unwrap();
    let (verdict, _) = verify::<Sumcheck<ProductWitness<F>>, _>(
        SumcheckClaim::new(sum, 2),
        proof.messages(),
        AlgebraicTranscript::<F>::new(),
    )
    .unwrap();
    match verdict {
        Verdict::Accept(opening) => assert_eq!(opening, *proof.opening()),
    }
}

#[test]
fn sum_of_products_round() {
    let terms = vec![vec![poly(&[1, 2], 1), poly(&[3, 4], 1)], vec![poly(&[5, 6], 1)]];
    let w = SumOfProductsWitness::new(terms);
    assert_eq!(w.num_vars(), 1);
    assert_eq!(w.round_poly_degree(), 2);
    // t = 0: 1*3 + 5; t = 1: 2*4 + 6; t = 2: 3*5 + 7
    assert_eq!(w.round_poly_evals(), bbs(&[8, 14, 22]));
    assert_eq!(w.final_value(), Some(bb(8)));
    let fixed = w.fix_variable(bb(1));
    assert_eq!(fixed.final_value(), Some(bb(14)));
}

#[test]
fn fold_codeword_values() {
    // w[2i] + (w[2i+1] - w[2i]) * r
    assert_eq!(fold_codeword(&bbs(&[1, 2, 3, 4]), bb(10)), bbs(&[11, 13]));
    assert_eq!(fold_codeword(&bbs(&[1, 2]), bb(3)), bbs(&[4]));
}

#[test]
fn fold_codeword_is_fixing_a_variable() {
    let r = bb(7);
    let folded = fold_codeword(&bbs(&[5, 9, 2, 4]), r);
    let fixed = poly(&[5, 9, 2, 4], 2).fix_variable(r);
    assert_eq!(&folded[..], fixed.evals());
}

#[test]
fn fri_witness_errors() {
    assert!(matches!(FriWitness::<H>::build(vec![]), Err(FriError::CodewordEmpty)));
    assert!(matches!(
        FriWitness::<H>::build(bbs(&[1, 2, 3])),
        Err(FriError::CodewordLengthNotPowerOfTwo { len: 3 })
    ));
}

#[test]
fn fri_end_to_end() {
    let message = bbs(&[1, 2, 3, 4]);
    let params = RsParams::new(3, 1).unwrap();
    let omega = F::root_of_unity(3).unwrap();
    let codeword = rs_encode(&message, omega, params).unwrap();
    let witness = FriWitness::<H>::build(codeword).unwrap();
    assert_eq!(witness.codeword().len(), 8);
    let root = witness.merkle_root().unwrap();
    let claim = FriClaim::new(root, 8);
    assert_eq!(claim.merkle_root(), root);
    assert_eq!(claim.codeword_len(), 8);
    let (proof, _) = prove::<Fri<H>, _>(claim, witness, AlgebraicTranscript::<F>::new()).unwrap();
    assert_eq!(proof.messages().len(), 3);
    let (verdict, _) = verify::<Fri<H>, _>(FriClaim::new(root, 8), proof.messages(), AlgebraicTranscript::<F>::new()).unwrap();
    match verdict {
        Verdict::Accept(opening) => assert_eq!(opening, *proof.opening()),
    }
}

#[test]
fn fri_messages_and_openings() {
    let m = FriRoundMsg::new(bb(9));
    assert_eq!(m.folded_root(), bb(9));
    assert_eq!(m.to_field_elements(), bbs(&[9]));
    let o = FriOpening::new(bb(4));
    assert_eq!(o.constant_value(), bb(4));
    assert_eq!(o.to_field_elements(), bbs(&[4]));
    assert_eq!(o.into_constant_value(), bb(4));
    let r = Fri::<H>::verifier_step(FriClaim::new(bb(1), 1), FriRoundMsg::new(bb(2)), bb(3));
    assert!(matches!(r, Err(FriError::StepOnFinished)));
}

#[test]
fn whir_end_to_end() {
    let evals = bbs(&[3, 1, 4, 1, 5, 9, 2, 6]);
    let witness = WhirWitness::<H>::build(evals).unwrap();
    let c = witness.commitment().unwrap();
    let claim = WhirClaim::new(c, 3);
    assert_eq!(claim.commitment(), c);
    assert_eq!(claim.num_vars(), 3);
    let (proof, _) = prove::<Whir<H>, _>(claim, witness, AlgebraicTranscript::<F>::new()).unwrap();
    assert_eq!(proof.messages().len(), 3);
    let (verdict, _) = verify::<Whir<H>, _>(WhirClaim::new(c, 3), proof.messages(), AlgebraicTranscript::<F>::new()).unwrap();
    match verdict {
        Verdict::Accept(opening) => assert_eq!(opening, *proof.opening()),
    }
    assert_eq!(WhirOpening::new(bb(2)).value(), bb(2));
    assert_eq!(WhirRoundMsg::new(bb(2)).to_field_elements(), bbs(&[2]));
}

#[test]
fn prover_gives_up_on_an_inconsistent_fri_claim() {
    let witness = FriWitness::<H>::build(bbs(&[1, 2])).unwrap();
    let r = prove::<Fri<H>, _>(FriClaim::new(bb(0), 4), witness, AlgebraicTranscript::<F>::new());
    assert!(matches!(r, Err(ProveError::Reduction(FriError::CodewordEmpty))));
}

#[test]
fn proof_parts() {
    let p = Proof::new(vec![FriRoundMsg::new(bb(1))], FriOpening::new(bb(2)));
    assert_eq!(p.messages().len(), 1);
    assert_eq!(p.opening().constant_value(), bb(2));
    let (msgs, o) = p.into_parts();
    assert_eq!(msgs.len(), 1);
    assert_eq!(o.constant_value(), bb(2));
}

fn shared(root: u64, len: usize, sum: u64, vars: usize) -> BaseFoldShared<F> {
    BaseFoldShared::new(FriClaim::new(bb(root), len), SumcheckClaim::new(bb(sum), vars)).unwrap()
}

#[test]
fn basefold_shared_needs_lockstep_claims() {
    let r = BaseFoldShared::new(FriClaim::new(bb(1), 4), SumcheckClaim::new(bb(2), 3));
    assert!(matches!(r, Err(BaseFoldError::InconsistentShared)));
    let r = BaseFoldShared::new(FriClaim::new(bb(1), 3), SumcheckClaim::new(bb(2), 2));
    assert!(matches!(r, Err(BaseFoldError::InconsistentShared)));
    let r = BaseFoldShared::new(FriClaim::new(bb(1), 0), SumcheckClaim::new(bb(2), 0));
    assert!(matches!(r, Err(BaseFoldError::InconsistentShared)));
    assert!(BaseFoldShared::new(FriClaim::new(bb(1), 1), SumcheckClaim::new(bb(2), 0)).is_ok());
}

#[test]
fn basefold_final_values_must_agree() {
    let ok = BaseFoldAdapter::<H>::combine_openings(FriOpening::new(bb(5)), SumcheckOpening::new(bb(5))).unwrap();
    assert_eq!(ok.fri_opening().constant_value(), bb(5));
    assert_eq!(ok.sum_opening(), bb(5));
    let bad = BaseFoldAdapter::<H>::combine_openings(FriOpening::new(bb(5)), SumcheckOpening::new(bb(6)));
    assert!(matches!(bad, Err(BaseFoldError::InconsistentShared)));
}

#[test]
fn fri_lens_join_split() {
    for (root, len, sum, vars) in [(0, 2, 0, 1), (123, 8, 456, 3), (2013265920, 16, 7, 4)] {
        assert_eq!(FriLens::<F>::check_join_split(shared(root, len, sum, vars)).ok(), Some(true));
    }
}

#[test]
fn sumcheck_lens_join_split() {
    for (root, len, sum, vars) in [(0, 2, 0, 1), (123, 8, 456, 3), (2013265920, 16, 7, 4)] {
        assert_eq!(SumcheckLens::<F>::check_join_split(shared(root, len, sum, vars)).ok(), Some(true));
    }
}

#[test]
fn fri_lens_split_join() {
    let r = FriLens::<F>::check_split_join(FriClaim::new(bb(5), 4), SumcheckClaim::new(bb(6), 2));
    assert_eq!(r.ok(), Some(true));
}

#[test]
fn sumcheck_lens_split_join() {
    let r = SumcheckLens::<F>::check_split_join(SumcheckClaim::new(bb(6), 2), FriClaim::new(bb(5), 4));
    assert_eq!(r.ok(), Some(true));
}

#[test]
fn basefold_shared_accessors() {
    let s = shared(1, 4, 2, 2);
    assert_eq!(s.fri_claim().merkle_root(), bb(1));
    assert_eq!(s.sum_claim().claimed_sum(), bb(2));
    let o = BaseFoldOpening::new(FriOpening::new(bb(3)), bb(4));
    assert_eq!(o.fri_opening().constant_value(), bb(3));
    assert_eq!(o.sum_opening(), bb(4));
}

#[test]
fn basefold_end_to_end() {
    let evals = bbs(&[1, 2, 3, 4]);
    let p = poly(&[1, 2, 3, 4], 2);
    let sum = p.sum_over_hypercube();
    let fri_witness = FriWitness::<H>::build(evals).unwrap();
    let root = fri_witness.merkle_root().unwrap();
    let claim = BaseFoldShared::new(FriClaim::new(root, 4), SumcheckClaim::new(sum, 2)).unwrap();
    let witness = BaseFoldWitness::new(fri_witness, LinearWitness::new(p));
    let (proof, _) = prove::<BaseFold<H>, _>(claim, witness, AlgebraicTranscript::<F>::new()).unwrap();
    assert_eq!(proof.messages().len(), 2);
    let v_claim = BaseFoldShared::new(FriClaim::new(root, 4), SumcheckClaim::new(sum, 2)).unwrap();
    let r = verify::<BaseFold<H>, _>(v_claim, proof.messages(), AlgebraicTranscript::<F>::new());
    assert!(r.is_ok());
}

#[test]
fn interleave_desync_is_reported() {
    // FRI finishes after one fold while sumcheck still has a round left
    let evals = bbs(&[1, 2]);
    let p = poly(&[1, 2, 3, 4], 2);
    let fri_witness = FriWitness::<H>::build(evals).unwrap();
    let root = fri_witness.merkle_root().unwrap();
    // `new` refuses such a pair; the lens joins the parts as they are
    let claim = FriLens::<F>::join(FriClaim::new(root, 1), SumcheckClaim::new(bb(10), 2)).unwrap();
    let witness = BaseFoldWitness::new(fri_witness, LinearWitness::new(p));
    let r = BaseFold::<H>::prover_step(claim, witness, bb(3));
    assert!(matches!(r, Err(InterleaveError::DoneDesync)));
}

#[test]
fn step_wrappers() {
    let c = ProverContinue::new(1u8, 2u8, 3u8);
    assert_eq!(c.into_parts(), (1, 2, 3));
    let d = ProverDone::new(1u8, 2u8, 3u8);
    assert_eq!(d.into_parts(), (1, 2, 3));
    let v = VerifierContinue::new(4u8);
    assert_eq!(v.into_inner(), 4);
    let vd = VerifierDone::new(5u8, 6u8);
    assert_eq!(vd.into_parts(), (5, 6));
    let m = InterleavedMsg::new(7u8, 8u8);
    assert_eq!(m.into_parts(), (7, 8));
}

#[test]
fn lens_wrappers_round_trip_witnesses() {
    let fw = FriWitness::<H>::build(bbs(&[1, 2])).unwrap();
    let lw = LinearWitness::new(poly(&[3, 4], 1));
    let whole = BaseFoldWitness::new(fw, lw);
    let (part, residue) = SumcheckWitnessLens::<H>::split(whole).unwrap();
    assert_eq!(part.into_poly().sum_over_hypercube(), bb(7));
    let _ = residue;
    let fw = FriWitness::<H>::build(bbs(&[1, 2])).unwrap();
    let lw = LinearWitness::new(poly(&[3, 4], 1));
    let joined = FriWitnessLens::<H>::join(fw, lw).unwrap();
    let (fw2, _) = FriWitnessLens::<H>::split(joined).unwrap();
    assert_eq!(fw2.codeword(), &bbs(&[1, 2])[..]);
}

fn fib_constraint() -> MultilinearPoly<F> {
    let trace = PlonkTrace::new(vec![bbs(&[0, 1, 1, 2]), bbs(&[1, 1, 2, 3]), bbs(&[1, 2, 3, 5])]).unwrap();
    constraint_poly::<AddGate, F>(&trace).unwrap()
}

fn basefold_on<Hs: plonky_cat::hash::Hasher<F = F>>(constraint: MultilinearPoly<F>) {
    let sum = constraint.sum_over_hypercube();
    assert_eq!(sum, F::zero());
    let fri_witness = FriWitness::<Hs>::build(constraint.evals().to_vec()).unwrap();
    let root = fri_witness.merkle_root().unwrap();
    let shared = BaseFoldShared::new(FriClaim::new(root, 4), SumcheckClaim::new(sum, 2)).unwrap();
    let witness = BaseFoldWitness::new(fri_witness, LinearWitness::new(constraint));
    let (proof, _) = prove::<BaseFold<Hs>, _>(shared, witness, AlgebraicTranscript::<F>::new()).unwrap();
    let v_shared = BaseFoldShared::new(FriClaim::new(root, 4), SumcheckClaim::new(sum, 2)).unwrap();
    let (verdict, _) = verify::<BaseFold<Hs>, _>(v_shared, proof.messages(), AlgebraicTranscript::<F>::new()).unwrap();
    match verdict {
        Verdict::Accept(opening) => assert_eq!(opening, *proof.opening()),
    }
}

#[test]
fn fib_plonk_basefold() {
    basefold_on::<H>(fib_constraint());
}

#[test]
fn fib_poseidon2() {
    basefold_on::<plonky_cat::hash::Poseidon2>(fib_constraint());
}

#[test]
fn binius_sumcheck_end_to_end() {
    type G = BinaryField8;
    let evals: Vec<G> = [0x57u8, 0x83, 0x13, 0xca].iter().map(|v| G::from_byte(*v)).collect();
    let p = MultilinearPoly::from_evals(2, evals).unwrap();
    let claimed_sum = p.sum_over_hypercube();
    assert_eq!(claimed_sum, G::from_byte(0x57 ^ 0x83 ^ 0x13 ^ 0xca));
    let witness = BiniusWitness::new(p);
    assert_eq!(witness.num_vars(), 2);
    assert_eq!(witness.round_poly_degree(), 1);
    assert_eq!(witness.round_poly_evals(), vec![G::from_byte(0x57 ^ 0x13), G::from_byte(0x83 ^ 0xca)]);
    let claim = SumcheckClaim::new(claimed_sum, 2);
    let (proof, _) = prove::<Sumcheck<BiniusWitness>, _>(claim, witness, AlgebraicTranscript::<G>::new()).unwrap();
    assert_eq!(proof.messages().len(), 2);
    let (verdict, _) = verify::<Sumcheck<BiniusWitness>, _>(
        SumcheckClaim::new(claimed_sum, 2),
        proof.messages(),
        AlgebraicTranscript::<G>::new(),
    )
    .unwrap();
    match verdict {
        Verdict::Accept(opening) => assert_eq!(opening, *proof.opening()),
    }
    let wrong = claimed_sum.add(G::one());
    let (bad, _) = prove::<Sumcheck<BiniusWitness>, _>(
        SumcheckClaim::new(wrong, 2),
        BiniusWitness::new(MultilinearPoly::from_evals(2, vec![G::one(); 4]).unwrap()),
        AlgebraicTranscript::<G>::new(),
    )
    .unwrap();
    let r = verify::<Sumcheck<BiniusWitness>, _>(SumcheckClaim::new(wrong, 2), bad.messages(), AlgebraicTranscript::<G>::new());
    assert!(r.is_err());
}

#[test]
fn prover_stops_at_the_round_limit() {
    // a claim in more variables than rounds allowed never finishes
    let r = prove::<Sumcheck<LinearWitness<F>>, _>(
        SumcheckClaim::new(bb(0), 2000),
        LinearWitness::new(poly(&[1, 2], 1)),
        AlgebraicTranscript::<F>::new(),
    );
    assert!(matches!(r, Err(ProveError::MaxRoundsExceeded { limit: 1024 })));
    // one variable fewer than the limit still finishes
    let r = prove::<Sumcheck<LinearWitness<F>>, _>(
        SumcheckClaim::new(bb(0), 1023),
        LinearWitness::new(poly(&[1, 2], 1)),
        AlgebraicTranscript::<F>::new(),
    );
    assert!(matches!(r, Err(ProveError::Reduction(SumcheckError::WitnessEmpty))));
}

#[test]
fn whir_folds_even_plus_challenge_times_odd() {
    // [1, 2] with r = 2 folds to 1 + 2 * 2 = 5
    let w = WhirWitness::<H>::build(bbs(&[1, 2])).unwrap();
    let c = w.commitment().unwrap();
    match Whir::<H>::prover_step(WhirClaim::new(c, 1), w, bb(2)).unwrap() {
        ProverStep::Continue(k) => {
            let (next, w2, msg) = k.into_parts();
            let expected = WhirWitness::<H>::build(bbs(&[5])).unwrap().commitment().unwrap();
            assert_eq!(w2.commitment().unwrap(), expected);
            assert_eq!(next.commitment(), expected);
            assert_eq!(next.num_vars(), 0);
            assert_eq!(msg.to_field_elements(), vec![expected]);
            match Whir::<H>::prover_step(next, w2, bb(9)).unwrap() {
                ProverStep::Done(d) => assert_eq!(d.into_parts().2.value(), bb(5)),
                ProverStep::Continue(_) => panic!("expected the end"),
            }
        }
        ProverStep::Done(_) => panic!("expected a round"),
    }
}
