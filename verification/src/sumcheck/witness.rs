//! Witness functions for sumcheck: one multilinear polynomial, a product of
//! two, and a sum of products.

use vstd::prelude::*;

use super::{option_value, SumcheckFunction};
use crate::field::{values, Field};
use crate::poly::multilinear::{even_part, fold_table, odd_part, MultilinearPoly};
use crate::field::sum_values;

verus! {

/// A single multilinear polynomial, whose round polynomial has degree one.
#[derive(Debug)]
pub struct LinearWitness<F> {
    poly: MultilinearPoly<F>,
}

impl<F: Field> View for LinearWitness<F> {
    type V = (nat, Seq<int>);

    closed spec fn view(&self) -> (nat, Seq<int>) {
        self.poly@
    }
}

impl<F: Field> LinearWitness<F> {
    pub fn new(poly: MultilinearPoly<F>) -> (r: Self)
        ensures
            r@ == poly@,
    {
        Self { poly }
    }

    pub fn into_poly(self) -> (r: MultilinearPoly<F>)
        ensures
            r@ == self@,
    {
        self.poly
    }
}

impl<F: Field> SumcheckFunction for LinearWitness<F> {
    type F = F;

    open spec fn spec_num_vars(w: (nat, Seq<int>)) -> nat {
        w.0
    }

    open spec fn spec_round_poly_degree(w: (nat, Seq<int>)) -> nat {
        1
    }

    /// The sums with the first variable fixed to 0 and to 1.
    open spec fn spec_round_poly_evals(w: (nat, Seq<int>)) -> Seq<int> {
        seq![sum_values::<F>(even_part(w.1)), sum_values::<F>(odd_part(w.1))]
    }

    open spec fn spec_fix_variable(w: (nat, Seq<int>), val: int) -> (nat, Seq<int>) {
        (
            if w.0 > 0 {
                (w.0 - 1) as nat
            } else {
                0
            },
            fold_table::<F>(w.1, val),
        )
    }

    open spec fn spec_final_value(w: (nat, Seq<int>)) -> Option<int> {
        if w.1.len() > 0 {
            Some(w.1[0])
        } else {
            None
        }
    }

    fn num_vars(&self) -> (r: usize) {
        self.poly.num_vars()
    }

    fn round_poly_degree(&self) -> (r: usize) {
        1
    }

    fn round_poly_evals(&self) -> (r: Vec<F>) {
        let (s0, s1) = self.poly.sumcheck_round_poly();
        let r = vec![s0, s1];
        proof {
            assert(values(r@) =~= seq![s0@, s1@]);
        }
        r
    }

    fn fix_variable(self, val: F) -> (r: Self) {
        Self { poly: self.poly.fix_variable(val) }
    }

    fn final_value(&self) -> (r: Option<F>) {
        let evals = self.poly.evals();
        if evals.len() > 0 {
            Some(evals[0])
        } else {
            None
        }
    }
}

/// Term `i` of the round polynomial of `a * b` at the point `k` (`0`, `1`
/// or `2`): the product of the two lines through `a[2i], a[2i+1]` and
/// `b[2i], b[2i+1]`, each taken at `k`; at 2 a line is `2 * x1 - x0`.
pub open spec fn product_term<F: Field>(a: Seq<int>, b: Seq<int>, k: int, i: int) -> int {
    if k == 0 {
        F::vmul(a[2 * i], b[2 * i])
    } else if k == 1 {
        F::vmul(a[2 * i + 1], b[2 * i + 1])
    } else {
        F::vmul(
            F::vsub(F::vadd(a[2 * i + 1], a[2 * i + 1]), a[2 * i]),
            F::vsub(F::vadd(b[2 * i + 1], b[2 * i + 1]), b[2 * i]),
        )
    }
}

/// `sum_{i < n} product_term(a, b, k, i)`, added from zero.
pub open spec fn product_sum<F: Field>(a: Seq<int>, b: Seq<int>, k: int, n: nat) -> int
    decreases n,
{
    if n == 0 {
        0
    } else {
        F::vadd(product_sum::<F>(a, b, k, (n - 1) as nat), product_term::<F>(a, b, k, n - 1))
    }
}

/// The product of two multilinear polynomials, whose round polynomial has
/// degree two.
#[derive(Debug)]
pub struct ProductWitness<F: Field> {
    a: MultilinearPoly<F>,
    b: MultilinearPoly<F>,
}

impl<F: Field> View for ProductWitness<F> {
    type V = ((nat, Seq<int>), (nat, Seq<int>));

    closed spec fn view(&self) -> ((nat, Seq<int>), (nat, Seq<int>)) {
        (self.a@, self.b@)
    }
}

impl<F: Field> ProductWitness<F> {
    /// `b` has at least as many values as `a`, which the round polynomial reads.
    #[verifier::type_invariant]
    closed spec fn covers(self) -> bool {
        self.a@.1.len() <= self.b@.1.len()
    }

    pub fn new(a: MultilinearPoly<F>, b: MultilinearPoly<F>) -> (r: Self)
        requires
            a@.1.len() <= b@.1.len(),
        ensures
            r@ == (a@, b@),
    {
        Self { a, b }
    }
}

impl<F: Field> SumcheckFunction for ProductWitness<F> {
    type F = F;

    open spec fn spec_num_vars(w: ((nat, Seq<int>), (nat, Seq<int>))) -> nat {
        w.0.0
    }

    open spec fn spec_round_poly_degree(w: ((nat, Seq<int>), (nat, Seq<int>))) -> nat {
        2
    }

    /// The values at 0, 1 and 2, summed over the pairs of `a`'s table.
    open spec fn spec_round_poly_evals(w: ((nat, Seq<int>), (nat, Seq<int>))) -> Seq<int> {
        let half = w.0.1.len() / 2;
        seq![
            product_sum::<F>(w.0.1, w.1.1, 0, half),
            product_sum::<F>(w.0.1, w.1.1, 1, half),
            product_sum::<F>(w.0.1, w.1.1, 2, half),
        ]
    }

    open spec fn spec_fix_variable(w: ((nat, Seq<int>), (nat, Seq<int>)), val: int) -> ((nat, Seq<int>), (nat, Seq<int>)) {
        (
            (
                if w.0.0 > 0 {
                    (w.0.0 - 1) as nat
                } else {
                    0
                },
                fold_table::<F>(w.0.1, val),
            ),
            (
                if w.1.0 > 0 {
                    (w.1.0 - 1) as nat
                } else {
                    0
                },
                fold_table::<F>(w.1.1, val),
            ),
        )
    }

    open spec fn spec_final_value(w: ((nat, Seq<int>), (nat, Seq<int>))) -> Option<int> {
        if w.0.1.len() > 0 && w.1.1.len() > 0 {
            Some(F::vmul(w.0.1[0], w.1.1[0]))
        } else {
            None
        }
    }

    fn num_vars(&self) -> (r: usize) {
        self.a.num_vars()
    }

    fn round_poly_degree(&self) -> (r: usize) {
        2
    }

    fn round_poly_evals(&self) -> (r: Vec<F>) {
        proof {
            use_type_invariant(self);
        }
        let n = self.a.num_evals();
        let half = n / 2;
        let a_evals = self.a.evals();
        let b_evals = self.b.evals();
        let ghost a = values(a_evals@);
        let ghost b = values(b_evals@);
        let mut s0 = F::zero();
        let mut s1 = F::zero();
        let mut s2 = F::zero();
        let mut i: usize = 0;
        while i < half
            invariant
                n == a_evals@.len(),
                half == n / 2,
                half * 2 <= n,
                a_evals@.len() <= b_evals@.len(),
                a == values(a_evals@),
                b == values(b_evals@),
                i <= half,
                s0@ == product_sum::<F>(a, b, 0, i as nat),
                s1@ == product_sum::<F>(a, b, 1, i as nat),
                s2@ == product_sum::<F>(a, b, 2, i as nat),
            decreases half - i,
        {
            let a0 = a_evals[2 * i];
            let a1 = a_evals[2 * i + 1];
            let b0 = b_evals[2 * i];
            let b1 = b_evals[2 * i + 1];
            s0 = s0.add(a0.mul(b0));
            s1 = s1.add(a1.mul(b1));
            let a2 = a1.double().sub(a0);
            let b2 = b1.double().sub(b0);
            s2 = s2.add(a2.mul(b2));
            i = i + 1;
        }
        let r = vec![s0, s1, s2];
        proof {
            assert(values(r@) =~= seq![s0@, s1@, s2@]);
        }
        r
    }

    fn fix_variable(self, val: F) -> (r: Self) {
        proof {
            use_type_invariant(&self);
        }
        let Self { a, b } = self;
        Self { a: a.fix_variable(val), b: b.fix_variable(val) }
    }

    fn final_value(&self) -> (r: Option<F>) {
        let a_evals = self.a.evals();
        let b_evals = self.b.evals();
        if a_evals.len() > 0 && b_evals.len() > 0 {
            Some(a_evals[0].mul(b_evals[0]))
        } else {
            None
        }
    }
}

} // verus!
