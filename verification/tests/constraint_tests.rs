use plonky_cat::field::{BabyBear, Field};
use plonky_cat::plonk::{
    constraint_poly, AddGate, AirTrace, BoolGate, CcsInstance, Error, FibTransition, Gate, MulGate,
    MulTransition, PlonkTrace, SparseMatrix, TransitionConstraint,
};
use plonky_cat::poly::MultilinearPoly;
use plonky_cat::prover::prove;
use plonky_cat::sumcheck::{
    layer_sumcheck_claim, logup_claim, AddLayer, Error as SumcheckError, GkrCircuit, GkrLayer, GkrWiring,
    LinearWitness, LogUpWitness, MulLayer, Sumcheck, SumcheckClaim, SumcheckFunction,
};
use plonky_cat::transcript::{AlgebraicTranscript, Transcript};

type F = BabyBear;

fn bb(v: u64) -> F {
    F::from(v)
}

fn bbs(vs: &[u64]) -> Vec<F> {
    vs.iter().map(|v| bb(*v)).collect()
}

fn neg(v: u64) -> F {
    bb(v).neg()
}

#[test]
fn gates_evaluate_rows() {
    assert_eq!(<AddGate as Gate<F>>::evaluate_row(&bbs(&[1, 2, 3])), F::zero());
    assert_eq!(<AddGate as Gate<F>>::evaluate_row(&bbs(&[1, 2, 4])), neg(1));
    assert_eq!(<MulGate as Gate<F>>::evaluate_row(&bbs(&[3, 4, 12])), F::zero());
    assert_eq!(<BoolGate as Gate<F>>::evaluate_row(&bbs(&[1])), F::zero());
    assert_eq!(<BoolGate as Gate<F>>::evaluate_row(&bbs(&[0])), F::zero());
    // 2 * (1 - 2)
    assert_eq!(<BoolGate as Gate<F>>::evaluate_row(&bbs(&[2])), neg(2));
    assert_eq!(<AddGate as Gate<F>>::num_wires(), 3);
    assert_eq!(<BoolGate as Gate<F>>::num_wires(), 1);
}

#[test]
fn trace_construction_errors() {
    assert!(matches!(PlonkTrace::<F>::new(vec![]), Err(Error::EmptyTrace)));
    assert!(matches!(PlonkTrace::new(vec![bbs(&[1, 2, 3])]), Err(Error::RowCountNotPowerOfTwo { len: 3 })));
    assert!(matches!(
        PlonkTrace::new(vec![bbs(&[1, 2]), bbs(&[1, 2]), bbs(&[1])]),
        Err(Error::ColumnLengthMismatch { expected: 2, got: 1 })
    ));
}

#[test]
fn trace_accessors() {
    let t = PlonkTrace::new(vec![bbs(&[1, 2, 3, 4]), bbs(&[5, 6, 7, 8])]).unwrap();
    assert_eq!(t.num_rows(), 4);
    assert_eq!(t.num_rows_log2(), 2);
    assert_eq!(t.num_columns(), 2);
    assert_eq!(t.columns()[1], bbs(&[5, 6, 7, 8]));
}

#[test]
fn satisfied_add_circuit_gives_a_zero_polynomial() {
    let t = PlonkTrace::new(vec![bbs(&[1, 2]), bbs(&[3, 4]), bbs(&[4, 6])]).unwrap();
    let p = constraint_poly::<AddGate, F>(&t).unwrap();
    assert_eq!(p.num_vars(), 1);
    assert_eq!(p.evals(), &bbs(&[0, 0])[..]);
    let bad = PlonkTrace::new(vec![bbs(&[1, 2]), bbs(&[3, 4]), bbs(&[4, 7])]).unwrap();
    let q = constraint_poly::<AddGate, F>(&bad).unwrap();
    assert_eq!(q.evals()[1], neg(1));
}

#[test]
fn gate_needs_enough_wires() {
    let t = PlonkTrace::new(vec![bbs(&[1, 2])]).unwrap();
    assert!(matches!(
        constraint_poly::<MulGate, F>(&t),
        Err(Error::InsufficientWires { gate_needs: 3, trace_has: 1 })
    ));
    assert!(constraint_poly::<BoolGate, F>(&t).is_ok());
}

#[test]
fn air_trace_errors() {
    assert!(matches!(AirTrace::<F>::new(2, vec![]), Err(Error::EmptyTrace)));
    assert!(matches!(AirTrace::new(0, bbs(&[1])), Err(Error::EmptyTrace)));
    assert!(matches!(AirTrace::new(2, bbs(&[1, 2, 3])), Err(Error::ColumnLengthMismatch { expected: 2, got: 1 })));
    assert!(matches!(AirTrace::new(1, bbs(&[1, 2, 3])), Err(Error::RowCountNotPowerOfTwo { len: 3 })));
}

#[test]
fn air_fibonacci_transitions() {
    let t = AirTrace::new(2, bbs(&[1, 1, 2, 3, 5, 8, 13, 21])).unwrap();
    assert_eq!(t.num_rows(), 4);
    assert_eq!(t.width(), 2);
    assert_eq!(t.row(1), &bbs(&[2, 3])[..]);
    let p = t.transition_poly(&FibTransition).unwrap();
    // three consecutive pairs, all satisfied, padded with one zero
    assert_eq!(p.evals(), &bbs(&[0, 0, 0, 0])[..]);
    assert_eq!(<FibTransition as TransitionConstraint<F>>::degree(&FibTransition), 1);
    let m = t.transition_poly(&MulTransition).unwrap();
    // 1 * 1 - 2
    assert_eq!(m.evals()[0], neg(1));
    assert_eq!(<MulTransition as TransitionConstraint<F>>::degree(&MulTransition), 2);
}

#[test]
fn air_transitions_skip_the_last_row() {
    let t = AirTrace::new(2, bbs(&[0, 1, 1, 2, 3, 5, 8, 13])).unwrap();
    let p = t.transition_poly(&FibTransition).unwrap();
    assert_eq!(p.num_vars(), 2);
    assert_eq!(p.evals(), &bbs(&[0, 0, 0, 0])[..]);
    // a broken pair shows in its own entry: 1 + 2 - 4
    let t = AirTrace::new(2, bbs(&[0, 1, 1, 2, 4, 5, 8, 13])).unwrap();
    let p = t.transition_poly(&FibTransition).unwrap();
    assert_eq!(p.evals(), &[bb(0), neg(1), bb(1), bb(0)][..]);
}

fn square_instance() -> CcsInstance<F> {
    // R1CS for x * x == y over z = (1, x, y)
    let a = SparseMatrix::new(1, 3, vec![(0, 1, bb(1))]);
    let b = SparseMatrix::new(1, 3, vec![(0, 1, bb(1))]);
    let c = SparseMatrix::new(1, 3, vec![(0, 2, bb(1))]);
    CcsInstance::new(1, 3, vec![a, b, c], vec![vec![0, 1], vec![2]], vec![bb(1), neg(1)]).unwrap()
}

#[test]
fn sparse_matrix_product() {
    let m = SparseMatrix::new(2, 3, vec![(0, 0, bb(2)), (1, 2, bb(3)), (0, 1, bb(1))]);
    assert_eq!(m.num_rows(), 2);
    assert_eq!(m.num_cols(), 3);
    assert_eq!(m.mul_vec(&bbs(&[5, 7, 11])), bbs(&[17, 33]));
}

#[test]
fn ccs_satisfaction() {
    let inst = square_instance();
    assert_eq!(inst.num_constraints(), 1);
    assert_eq!(inst.num_variables(), 3);
    assert!(inst.is_satisfied(&bbs(&[1, 3, 9])));
    assert!(!inst.is_satisfied(&bbs(&[1, 3, 8])));
}

#[test]
fn ccs_constraint_poly() {
    let inst = square_instance();
    let p = inst.constraint_poly(&bbs(&[1, 3, 9])).unwrap();
    assert_eq!(p.num_vars(), 0);
    assert_eq!(p.evals(), &bbs(&[0])[..]);
    let q = inst.constraint_poly(&bbs(&[1, 3, 8])).unwrap();
    assert_eq!(q.evals(), &bbs(&[1])[..]);
}

#[test]
fn ccs_needs_one_coefficient_per_multiset() {
    let r = CcsInstance::<F>::new(1, 1, vec![], vec![vec![]], vec![]);
    assert!(matches!(r, Err(Error::ColumnLengthMismatch { expected: 1, got: 0 })));
}

#[test]
fn gkr_layers_and_wiring() {
    assert_eq!(AddLayer.evaluate(bb(2), bb(3)), bb(5));
    assert_eq!(MulLayer.evaluate(bb(2), bb(3)), bb(6));
    let w = GkrWiring::new(vec![0, 2], vec![1, 3], bbs(&[5, 6]));
    assert_eq!(w.num_gates(), 2);
    assert_eq!(w.values(), &bbs(&[5, 6])[..]);
    let c = GkrCircuit::new(vec![w]);
    assert_eq!(c.num_layers(), 1);
    assert_eq!(c.layer(0).num_gates(), 2);
    let out = c.reduce_to_input(SumcheckClaim::new(bb(9), 1));
    assert_eq!(out.len(), 1);
    assert_eq!(out[0].0.claimed_sum(), bb(9));
    // the first challenge of a fresh transcript is zero: P(0) = 5
    assert_eq!(out[0].1.value(), bb(5));
}

#[test]
fn gkr_reduces_every_layer() {
    let input = GkrWiring::new(vec![0, 1, 2, 3], vec![0, 1, 2, 3], bbs(&[1, 2, 3, 4]));
    let output = GkrWiring::new(vec![0, 2], vec![1, 3], bbs(&[5, 6]));
    let c = GkrCircuit::new(vec![input, output]);
    let out = c.reduce_to_input(SumcheckClaim::new(bb(11), 1));
    assert_eq!(out.len(), 2);
    assert_eq!(out[0].0.claimed_sum(), bb(11));
    assert_eq!(out[0].1.value(), bb(5));
    // the input layer: the claim of its sum, opened by the sumcheck prover
    assert_eq!(out[1].0.claimed_sum(), bb(10));
    assert_eq!(out[1].0.num_vars_remaining(), 2);
    let claim = SumcheckClaim::new(bb(10), 2);
    let witness = LinearWitness::new(MultilinearPoly::from_evals(2, bbs(&[1, 2, 3, 4])).unwrap());
    let (proof, _) =
        prove::<Sumcheck<LinearWitness<F>>, _>(claim, witness, AlgebraicTranscript::<F>::new()).unwrap();
    assert_eq!(out[1].1.value(), proof.opening().value());
}

#[test]
fn gkr_layer_of_odd_size() {
    let input = GkrWiring::new(vec![0], vec![0], bbs(&[1, 2, 3]));
    let output = GkrWiring::new(vec![0], vec![0], bbs(&[7]));
    let c = GkrCircuit::new(vec![input, output]);
    let out = c.reduce_to_input(SumcheckClaim::new(bb(7), 0));
    assert_eq!(out.len(), 2);
    assert_eq!(out[0].1.value(), bb(7));
    assert_eq!(out[1].0.claimed_sum(), bb(6));
    assert_eq!(out[1].0.num_vars_remaining(), 0);
    assert_eq!(out[1].1.value(), F::zero());
    assert!(GkrCircuit::<F>::new(vec![]).reduce_to_input(SumcheckClaim::new(bb(1), 0)).is_empty());
}

#[test]
fn gkr_layer_claim() {
    // eq(3, 0) * 5 + eq(3, 1) * 7 == (1 - 3) * 5 + 3 * 7
    let c = layer_sumcheck_claim(&bbs(&[3]), &bbs(&[5, 7])).unwrap();
    assert_eq!(c.claimed_sum(), bb(11));
    assert_eq!(c.num_vars_remaining(), 1);
    assert!(layer_sumcheck_claim(&bbs(&[3]), &bbs(&[5, 7, 9])).is_err());
    assert!(layer_sumcheck_claim(&bbs(&[3]), &[]).is_err());
}

#[test]
fn gkr_layer_claim_is_the_extension_at_the_point() {
    // the first coordinate is the low bit of the index: P(0, 1) = values[2]
    let c = layer_sumcheck_claim(&bbs(&[0, 1]), &bbs(&[1, 2, 3, 4])).unwrap();
    assert_eq!(c.claimed_sum(), bb(3));
    assert_eq!(c.num_vars_remaining(), 2);
    let p = MultilinearPoly::from_evals(2, bbs(&[1, 2, 3, 4])).unwrap();
    let c = layer_sumcheck_claim(&bbs(&[5, 9]), &bbs(&[1, 2, 3, 4])).unwrap();
    assert_eq!(c.claimed_sum(), p.evaluate(&bbs(&[5, 9])).unwrap());
}

#[test]
fn logup_claims() {
    // a valid lookup: 1/(5-1) + 1/(5-1) - 2/(5-1) - 0/(5-2) == 0
    let (c, w) = logup_claim(&bbs(&[1, 1]), &bbs(&[1, 2]), &bbs(&[2, 0]), bb(5)).unwrap();
    assert_eq!(c.claimed_sum(), F::zero());
    assert_eq!(c.num_vars_remaining(), 1);
    assert_eq!(w.num_vars(), 1);
    // a valid lookup of four values into a table of four entries
    let (c3, _) = logup_claim(&bbs(&[3, 1, 3, 3]), &bbs(&[1, 2, 3, 4]), &bbs(&[1, 0, 3, 0]), bb(10)).unwrap();
    assert_eq!(c3.claimed_sum(), F::zero());
    assert_eq!(c3.num_vars_remaining(), 2);
    // 1/9 + 1/8 - 2/8 == -1/72
    let (c2, _) = logup_claim(&bbs(&[1, 2]), &bbs(&[1, 2]), &bbs(&[0, 2]), bb(10)).unwrap();
    assert_eq!(c2.claimed_sum().mul(bb(72)), neg(1));
}

#[test]
fn logup_errors() {
    assert!(matches!(
        logup_claim(&bbs(&[1, 2, 3]), &bbs(&[1, 2, 3]), &bbs(&[1, 1, 1]), bb(10)),
        Err(SumcheckError::WitnessEmpty)
    ));
    assert!(matches!(
        logup_claim(&bbs(&[1, 2]), &bbs(&[1]), &bbs(&[1, 1]), bb(10)),
        Err(SumcheckError::WitnessEmpty)
    ));
    assert!(matches!(
        logup_claim(&bbs(&[1, 2]), &bbs(&[1, 2]), &bbs(&[1]), bb(10)),
        Err(SumcheckError::WitnessEmpty)
    ));
    assert!(matches!(
        logup_claim(&bbs(&[1, 5]), &bbs(&[1, 2]), &bbs(&[1, 1]), bb(5)),
        Err(SumcheckError::DivisionByZero)
    ));
    assert!(matches!(
        logup_claim(&bbs(&[1, 2]), &bbs(&[1, 5]), &bbs(&[1, 1]), bb(5)),
        Err(SumcheckError::DivisionByZero)
    ));
}

#[test]
fn logup_uses_the_first_entries_of_longer_lists() {
    // one value against a table of two: only the first entry and
    // multiplicity count, 1/(5-1) - 1/(5-1) == 0
    let (c, w) = logup_claim(&bbs(&[1]), &bbs(&[1, 2]), &bbs(&[1, 7]), bb(5)).unwrap();
    assert_eq!(c.claimed_sum(), F::zero());
    assert_eq!(c.num_vars_remaining(), 0);
    assert_eq!(w.num_vars(), 0);
    // beta may equal an entry past the first k
    let (c, _) = logup_claim(&bbs(&[1, 1]), &bbs(&[1, 2, 5]), &bbs(&[2, 0, 9]), bb(5)).unwrap();
    assert_eq!(c.claimed_sum(), F::zero());
}

#[test]
fn logup_witness_round() {
    let n = MultilinearPoly::from_evals(1, bbs(&[1, 2])).unwrap();
    let d = MultilinearPoly::from_evals(1, bbs(&[3, 4])).unwrap();
    let w = LogUpWitness::new(n, d);
    // s(X) = (1 + X)(3 + X) at 0, 1, 2
    assert_eq!(w.round_poly_evals(), bbs(&[3, 8, 15]));
    let (_, w) = logup_claim(&bbs(&[1, 1]), &bbs(&[1, 2]), &bbs(&[2, 0]), bb(5)).unwrap();
    // numerators (-1/4, 1/4) over denominators (1, 1)
    assert_eq!(w.final_value(), Some(w_first_term()));
    assert_eq!(w.fix_variable(bb(1)).final_value(), Some(w_first_term().neg()));
}

fn w_first_term() -> F {
    // 1/4 - 2/4 == -1/4, times the denominator 1
    neg(1).mul(bb(4).inv().unwrap())
}
