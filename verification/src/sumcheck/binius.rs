//! Sumcheck over the binary field GF(2^8): the protocol is the same as over
//! a prime field, with exclusive or for addition.

use vstd::prelude::*;

use super::SumcheckFunction;
use crate::field::{sum_values, values, BinaryField8};
use crate::poly::multilinear::{even_part, fold_table, odd_part, MultilinearPoly};

verus! {

/// A multilinear polynomial over GF(2^8), summed by sumcheck.
#[derive(Debug)]
pub struct BiniusWitness {
    poly: MultilinearPoly<BinaryField8>,
}

impl View for BiniusWitness {
    type V = (nat, Seq<int>);

    closed spec fn view(&self) -> (nat, Seq<int>) {
        self.poly@
    }
}

impl BiniusWitness {
    pub fn new(poly: MultilinearPoly<BinaryField8>) -> (r: Self)
        ensures
            r@ == poly@,
    {
        Self { poly }
    }
}

impl SumcheckFunction for BiniusWitness {
    type F = BinaryField8;

    open spec fn spec_num_vars(w: (nat, Seq<int>)) -> nat {
        w.0
    }

    open spec fn spec_round_poly_degree(w: (nat, Seq<int>)) -> nat {
        1
    }

    /// The sums with the first variable fixed to 0 and to 1.
    open spec fn spec_round_poly_evals(w: (nat, Seq<int>)) -> Seq<int> {
        seq![sum_values::<BinaryField8>(even_part(w.1)), sum_values::<BinaryField8>(odd_part(w.1))]
    }

    open spec fn spec_fix_variable(w: (nat, Seq<int>), val: int) -> (nat, Seq<int>) {
        (
            if w.0 > 0 {
                (w.0 - 1) as nat
            } else {
                0
            },
            fold_table::<BinaryField8>(w.1, val),
        )
    }

    open spec fn spec_final_value(w: (nat, Seq<int>)) -> Option<int> {
        if w.1.len() > 0 {
            Some(w.1[0])
        } else {
            None
        }
    }

    fn num_vars(&self) -> (r: usize) {
        self.poly.num_vars()
    }

    fn round_poly_degree(&self) -> (r: usize) {
        1
    }

    fn round_poly_evals(&self) -> (r: Vec<BinaryField8>) {
        let (s0, s1) = self.poly.sumcheck_round_poly();
        let r = vec![s0, s1];
        proof {
            assert(values(r@) =~= seq![s0@, s1@]);
        }
        r
    }

    fn fix_variable(self, val: BinaryField8) -> (r: Self) {
        Self { poly: self.poly.fix_variable(val) }
    }

    fn final_value(&self) -> (r: Option<BinaryField8>) {
        let evals = self.poly.evals();
        if evals.len() > 0 {
            Some(evals[0])
        } else {
            None
        }
    }
}

} // verus!
