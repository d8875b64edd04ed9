use plonky_cat::code::{rs_encode, RsParams};
use plonky_cat::fft::{circle_evaluate, intt, ntt, CirclePoint};
use plonky_cat::field::{BabyBear, Field, Mersenne31};
use plonky_cat::poly::{Error, MultilinearPoly, UnivariatePoly};

fn bb(v: u64) -> BabyBear {
    BabyBear::from(v)
}

fn bbs(vs: &[u64]) -> Vec<BabyBear> {
    vs.iter().map(|v| bb(*v)).collect()
}

#[test]
fn multilinear_requires_power_of_two_evals() {
    let r = MultilinearPoly::from_evals(2, bbs(&[1, 2, 3]));
    assert!(matches!(r, Err(Error::EvaluationDimensionMismatch { expected: 4, got: 3 })));
}

#[test]
fn multilinear_evaluates_on_the_hypercube() {
    let p = MultilinearPoly::from_evals(2, bbs(&[1, 2, 3, 4])).unwrap();
    assert_eq!(p.num_vars(), 2);
    assert_eq!(p.num_evals(), 4);
    // evals[b0 + 2 b1]
    assert_eq!(p.evaluate(&bbs(&[0, 0])).unwrap(), bb(1));
    assert_eq!(p.evaluate(&bbs(&[1, 0])).unwrap(), bb(2));
    assert_eq!(p.evaluate(&bbs(&[0, 1])).unwrap(), bb(3));
    assert_eq!(p.evaluate(&bbs(&[1, 1])).unwrap(), bb(4));
    // P(x0, x1) = 1 + x0 + 2 x1
    assert_eq!(p.evaluate(&bbs(&[5, 7])).unwrap(), bb(20));
    assert!(p.evaluate(&bbs(&[1])).is_err());
}

#[test]
fn fix_variable_then_evaluate() {
    let p = MultilinearPoly::from_evals(2, bbs(&[1, 2, 3, 4])).unwrap();
    let direct = p.evaluate(&bbs(&[5, 7])).unwrap();
    let q = p.fix_variable(bb(5));
    assert_eq!(q.num_vars(), 1);
    assert_eq!(q.evals(), &bbs(&[6, 8])[..]);
    assert_eq!(q.evaluate(&bbs(&[7])).unwrap(), direct);
}

#[test]
fn round_poly_adds_up_to_the_sum() {
    let p = MultilinearPoly::from_evals(2, bbs(&[1, 2, 3, 4])).unwrap();
    let s = p.sum_over_hypercube();
    assert_eq!(s, bb(10));
    let (s0, s1) = p.sumcheck_round_poly();
    assert_eq!(s0, bb(4));
    assert_eq!(s1, bb(6));
    assert_eq!(s0.add(s1), s);
}

#[test]
fn multilinear_add_and_neg() {
    let p = MultilinearPoly::from_evals(1, bbs(&[1, 2])).unwrap();
    let q = MultilinearPoly::from_evals(1, bbs(&[10, 20])).unwrap();
    let s = p.add(q);
    assert_eq!(s.evals(), &bbs(&[11, 22])[..]);
    let n = s.neg();
    assert_eq!(n.evals()[0].add(bb(11)), BabyBear::zero());
}

#[test]
fn univariate_basics() {
    assert!(matches!(UnivariatePoly::<BabyBear>::from_coeffs(vec![]), Err(Error::EmptyCoefficients)));
    let p = UnivariatePoly::from_coeffs(bbs(&[1, 2, 3, 0])).unwrap();
    assert_eq!(p.degree(), 2);
    assert_eq!(p.num_coeffs(), 4);
    assert_eq!(p.coeff(1).unwrap(), bb(2));
    assert!(matches!(p.coeff(9), Err(Error::IndexOutOfBounds { index: 9, len: 4 })));
    // 1 + 2x + 3x^2 at 2
    assert_eq!(p.evaluate(bb(2)), bb(17));
    assert_eq!(UnivariatePoly::<BabyBear>::zero_poly().degree(), 0);
    assert_eq!(UnivariatePoly::constant(bb(9)).evaluate(bb(100)), bb(9));
}

#[test]
fn univariate_arithmetic() {
    let p = UnivariatePoly::from_coeffs(bbs(&[1, 1])).unwrap();
    let q = UnivariatePoly::from_coeffs(bbs(&[2, 3])).unwrap();
    let prod = UnivariatePoly::from_coeffs(bbs(&[1, 1])).unwrap().mul(q);
    // (1 + x)(2 + 3x) = 2 + 5x + 3x^2
    assert_eq!(prod.into_coeffs(), bbs(&[2, 5, 3]));
    let q2 = UnivariatePoly::from_coeffs(bbs(&[2, 3])).unwrap();
    let sum = p.add(q2);
    assert_eq!(sum.into_coeffs(), bbs(&[3, 4]));
    let a = UnivariatePoly::from_coeffs(bbs(&[5, 5])).unwrap();
    let b = UnivariatePoly::from_coeffs(bbs(&[2])).unwrap();
    assert_eq!(a.sub(b).into_coeffs(), bbs(&[3, 5]));
}

#[test]
fn ntt_evaluates_at_powers_of_the_root() {
    let coeffs = bbs(&[1, 2, 3, 4, 5, 6, 7, 8]);
    let w = BabyBear::root_of_unity(3).unwrap();
    let evals = ntt(&coeffs, w).unwrap();
    let p = UnivariatePoly::from_coeffs(coeffs.clone()).unwrap();
    for (k, e) in evals.iter().enumerate() {
        assert_eq!(*e, p.evaluate(w.pow(k as u64)));
    }
}

#[test]
fn intt_inverts_ntt() {
    let coeffs = bbs(&[9, 8, 7, 6]);
    let w = BabyBear::root_of_unity(2).unwrap();
    let evals = ntt(&coeffs, w).unwrap();
    let w_inv = w.inv().unwrap();
    let n_inv = bb(4).inv().unwrap();
    let back = intt(&evals, w_inv, n_inv).unwrap();
    assert_eq!(back, coeffs);
}

#[test]
fn ntt_rejects_bad_lengths() {
    let w = BabyBear::root_of_unity(2).unwrap();
    assert!(ntt(&bbs(&[]), w).is_err());
    assert!(ntt(&bbs(&[1, 2, 3]), w).is_err());
}

#[test]
fn circle_generator_is_on_the_circle() {
    let g = CirclePoint::generator();
    assert!(g.is_on_circle());
    assert!(CirclePoint::identity().is_on_circle());
    assert_eq!(g.mul(CirclePoint::identity()), g);
    assert!(g.mul(g).is_on_circle());
    assert_eq!(g.pow(0), CirclePoint::identity());
    assert_eq!(g.pow(2), g.mul(g));
}

#[test]
fn circle_subgroup_generator_orders() {
    let g1 = CirclePoint::subgroup_generator(1).unwrap();
    // a point of order two is (-1, 0)
    assert_eq!(g1.x(), Mersenne31::from(2147483646u64));
    assert_eq!(g1.y(), Mersenne31::zero());
    assert_eq!(g1.mul(g1), CirclePoint::identity());
    assert!(CirclePoint::subgroup_generator(32).is_err());
}

#[test]
fn circle_evaluate_constant() {
    let coeffs = vec![Mersenne31::from(5u64)];
    let out = circle_evaluate(&coeffs, 2).unwrap();
    assert_eq!(out.len(), 4);
    // x(pt^0) = 1 at every point
    assert!(out.iter().all(|v| *v == Mersenne31::from(5u64)));
    assert!(circle_evaluate(&[], 2).is_err());
    assert!(circle_evaluate(&coeffs, 40).is_err());
}

#[test]
fn circle_subgroup_generator_has_exact_order() {
    let minus_one = CirclePoint::new(Mersenne31::from(2147483646u64), Mersenne31::zero());
    for log_n in 1..=6u32 {
        let h = CirclePoint::subgroup_generator(log_n).unwrap();
        assert!(h.is_on_circle());
        assert_eq!(h.pow(1u64 << log_n), CirclePoint::identity());
        assert_eq!(h.pow(1u64 << (log_n - 1)), minus_one);
    }
    let g = CirclePoint::generator();
    assert_eq!(g.pow(1u64 << 31), CirclePoint::identity());
    assert_eq!(g.pow(1u64 << 30), minus_one);
    let a = g.pow(12345);
    let b = g.pow(67890);
    let c = g.pow(424242);
    assert_eq!(a.mul(b).mul(c), a.mul(b.mul(c)));
    assert_eq!(a.mul(b), b.mul(a));
    assert_eq!(a.mul(b), g.pow(12345 + 67890));
}

#[test]
fn rs_codeword_evaluates_the_message() {
    let message: Vec<BabyBear> = [1u64, 2, 3, 4].iter().map(|v| BabyBear::from(*v)).collect();
    let params = RsParams::new(3, 1).unwrap();
    let omega = BabyBear::root_of_unity(3).unwrap();
    let codeword = rs_encode(&message, omega, params).unwrap();
    let p = UnivariatePoly::from_coeffs(message.clone()).unwrap();
    assert_eq!(codeword.len(), 8);
    for (k, c) in codeword.iter().enumerate() {
        assert_eq!(*c, p.evaluate(omega.pow(k as u64)));
    }
}

#[test]
fn univariate_product_evaluates_to_product_of_values() {
    let p = UnivariatePoly::from_coeffs(bbs(&[1, 2])).unwrap();
    let q = UnivariatePoly::from_coeffs(bbs(&[3, 1])).unwrap();
    let x = bb(5);
    let (px, qx) = (p.evaluate(x), q.evaluate(x));
    let pq = p.mul(q);
    assert_eq!(pq.into_coeffs(), bbs(&[3, 7, 2]));
    let p = UnivariatePoly::from_coeffs(bbs(&[1, 2])).unwrap();
    let q = UnivariatePoly::from_coeffs(bbs(&[3, 1])).unwrap();
    assert_eq!(p.mul(q).evaluate(x), bb(88));
    assert_eq!(px.mul(qx), bb(88));
}

#[test]
fn multilinear_shape_survives_fixing() {
    let p = MultilinearPoly::from_evals(2, bbs(&[1, 2, 3, 4])).unwrap();
    let once = p.fix_variable(bb(3));
    assert_eq!((once.num_vars(), once.num_evals()), (1, 2));
    let twice = once.fix_variable(bb(2));
    assert_eq!((twice.num_vars(), twice.num_evals()), (0, 1));
    let thrice = twice.fix_variable(bb(2));
    assert_eq!((thrice.num_vars(), thrice.num_evals()), (0, 0));
}

#[test]
fn babybear_roots_have_their_order() {
    assert_eq!(BabyBear::two_adic_generator(), bb(0x1a42_7a41));
    for log_n in [1u32, 5, 27] {
        let w = BabyBear::root_of_unity(log_n).unwrap();
        assert_eq!(w.pow(1u64 << log_n), BabyBear::one());
        assert_eq!(w.pow(1u64 << (log_n - 1)), BabyBear::one().neg());
    }
}
