//! A sum of products of multilinear polynomials as a sumcheck witness; the
//! round polynomial has the degree of the longest product.

use vstd::prelude::*;

use super::interp::{eval_at_point, line_at};
use super::SumcheckFunction;
use crate::field::{values, Field};
use crate::poly::multilinear::{fold_table, MultilinearPoly};

verus! {

/// A polynomial as its number of variables and its table of values.
pub type PolyView = (nat, Seq<int>);

/// The views of a list of polynomials.
pub open spec fn polys_view<F: Field>(v: Seq<MultilinearPoly<F>>) -> Seq<(nat, Seq<int>)> {
    v.map_values(|p: MultilinearPoly<F>| p@)
}

/// A polynomial with its first variable fixed to `val`.
pub open spec fn fix_poly<F: Field>(p: (nat, Seq<int>), val: int) -> (nat, Seq<int>) {
    (
        if p.0 > 0 {
            (p.0 - 1) as nat
        } else {
            0
        },
        fold_table::<F>(p.1, val),
    )
}

/// Within every product, each factor has at least as many values as the
/// first, and a product has fewer than `usize::MAX` factors.
pub open spec fn products_covered(w: Seq<Seq<(nat, Seq<int>)>>) -> bool {
    forall|k: int|
        0 <= k < w.len() ==> {
            &&& #[trigger] w[k].len() < usize::MAX
            &&& forall|m: int| 0 <= m < w[k].len() ==> w[k][0].1.len() <= #[trigger] w[k][m].1.len()
        }
}

/// The largest number of factors among the first `n` products.
pub open spec fn max_term_len(w: Seq<Seq<(nat, Seq<int>)>>, n: nat) -> nat
    decreases n,
{
    if n == 0 {
        0
    } else {
        let m = max_term_len(w, (n - 1) as nat);
        if w[n - 1].len() > m {
            w[n - 1].len()
        } else {
            m
        }
    }
}

/// The product over the first `m` factors of their lines through the pair
/// `2i, 2i + 1`, taken at `t`.
pub open spec fn factor_product<F: Field>(factors: Seq<(nat, Seq<int>)>, t: nat, i: int, m: nat) -> int
    decreases m,
{
    if m == 0 {
        1
    } else {
        F::vmul(
            factor_product::<F>(factors, t, i, (m - 1) as nat),
            line_at::<F>(factors[m - 1].1[2 * i], factors[m - 1].1[2 * i + 1], t),
        )
    }
}

/// The number of pairs in the first factor's table.
pub open spec fn term_half(factors: Seq<(nat, Seq<int>)>) -> nat {
    if factors.len() > 0 {
        factors[0].1.len() / 2
    } else {
        0
    }
}

/// `sum_{i < n}` of the product at pair `i`, at `t`.
pub open spec fn term_sum<F: Field>(factors: Seq<(nat, Seq<int>)>, t: nat, n: nat) -> int
    decreases n,
{
    if n == 0 {
        0
    } else {
        F::vadd(
            term_sum::<F>(factors, t, (n - 1) as nat),
            factor_product::<F>(factors, t, n - 1, factors.len()),
        )
    }
}

/// The round polynomial's value at `t`, summed over the first `m` products.
pub open spec fn products_at<F: Field>(w: Seq<Seq<(nat, Seq<int>)>>, t: nat, m: nat) -> int
    decreases m,
{
    if m == 0 {
        0
    } else {
        F::vadd(
            products_at::<F>(w, t, (m - 1) as nat),
            term_sum::<F>(w[m - 1], t, term_half(w[m - 1])),
        )
    }
}

/// The product of the first values of the first `m` factors; a factor with
/// no values is skipped.
pub open spec fn final_product<F: Field>(factors: Seq<(nat, Seq<int>)>, m: nat) -> int
    decreases m,
{
    if m == 0 {
        1
    } else {
        let prev = final_product::<F>(factors, (m - 1) as nat);
        if factors[m - 1].1.len() > 0 {
            F::vmul(prev, factors[m - 1].1[0])
        } else {
            prev
        }
    }
}

pub open spec fn final_sum<F: Field>(w: Seq<Seq<(nat, Seq<int>)>>, m: nat) -> int
    decreases m,
{
    if m == 0 {
        0
    } else {
        F::vadd(final_sum::<F>(w, (m - 1) as nat), final_product::<F>(w[m - 1], w[m - 1].len()))
    }
}

/// `sum_k prod_m P_{k,m}`: a list of products of multilinear polynomials.
#[derive(Debug)]
pub struct SumOfProductsWitness<F: Field> {
    terms: Vec<Vec<MultilinearPoly<F>>>,
}

impl<F: Field> View for SumOfProductsWitness<F> {
    type V = Seq<Seq<(nat, Seq<int>)>>;

    closed spec fn view(&self) -> Seq<Seq<(nat, Seq<int>)>> {
        self.terms@.map_values(|t: Vec<MultilinearPoly<F>>| polys_view(t@))
    }
}

impl<F: Field> SumOfProductsWitness<F> {
    #[verifier::type_invariant]
    closed spec fn covered(self) -> bool {
        products_covered(self@)
    }

    pub fn new(terms: Vec<Vec<MultilinearPoly<F>>>) -> (r: Self)
        requires
            products_covered(terms@.map_values(|t: Vec<MultilinearPoly<F>>| polys_view(t@))),
        ensures
            r@ == terms@.map_values(|t: Vec<MultilinearPoly<F>>| polys_view(t@)),
    {
        Self { terms }
    }
}

fn factor_product_at<F: Field>(factors: &Vec<MultilinearPoly<F>>, t: usize, i: usize) -> (r: F)
    requires
        factors@.len() > 0,
        2 * i + 1 < polys_view(factors@)[0].1.len(),
        forall|m: int|
            0 <= m < factors@.len() ==> polys_view(factors@)[0].1.len() <= #[trigger] polys_view(
                factors@,
            )[m].1.len(),
    ensures
        r@ == factor_product::<F>(polys_view(factors@), t as nat, i as int, factors@.len()),
{
    let ghost fv = polys_view(factors@);
    let mut prod = F::one();
    let mut m: usize = 0;
    while m < factors.len()
        invariant
            fv == polys_view(factors@),
            m <= factors@.len(),
            2 * i + 1 < fv[0].1.len(),
            forall|j: int| 0 <= j < factors@.len() ==> fv[0].1.len() <= #[trigger] fv[j].1.len(),
            prod@ == factor_product::<F>(fv, t as nat, i as int, m as nat),
        decreases factors@.len() - m,
    {
        let evals = factors[m].evals();
        let len = evals.len();
        assert(fv[m as int] == factors@[m as int]@);
        assert(fv[0].1.len() <= fv[m as int].1.len());
        assert(2 * i + 1 < len);
        let val = eval_at_point(evals[2 * i], evals[2 * i + 1], t);
        prod = prod.mul(val);
        m = m + 1;
    }
    prod
}

fn term_sum_at<F: Field>(factors: &Vec<MultilinearPoly<F>>, t: usize) -> (r: F)
    requires
        forall|m: int|
            0 <= m < factors@.len() ==> polys_view(factors@)[0].1.len() <= #[trigger] polys_view(
                factors@,
            )[m].1.len(),
    ensures
        r@ == term_sum::<F>(polys_view(factors@), t as nat, term_half(polys_view(factors@))),
{
    let ghost fv = polys_view(factors@);
    let half = if factors.len() > 0 {
        factors[0].num_evals() / 2
    } else {
        0
    };
    let mut inner = F::zero();
    let mut i: usize = 0;
    while i < half
        invariant
            fv == polys_view(factors@),
            half == term_half(fv),
            i <= half,
            factors@.len() > 0 ==> half * 2 <= fv[0].1.len(),
            forall|m: int| 0 <= m < factors@.len() ==> fv[0].1.len() <= #[trigger] fv[m].1.len(),
            inner@ == term_sum::<F>(fv, t as nat, i as nat),
        decreases half - i,
    {
        let prod = factor_product_at(factors, t, i);
        inner = inner.add(prod);
        i = i + 1;
    }
    inner
}

impl<F: Field> SumcheckFunction for SumOfProductsWitness<F> {
    type F = F;

    open spec fn spec_num_vars(w: Seq<Seq<(nat, Seq<int>)>>) -> nat {
        if w.len() > 0 && w[0].len() > 0 {
            w[0][0].0
        } else {
            0
        }
    }

    open spec fn spec_round_poly_degree(w: Seq<Seq<(nat, Seq<int>)>>) -> nat {
        max_term_len(w, w.len())
    }

    /// The values at `0, ..., degree`, summed over the products.
    open spec fn spec_round_poly_evals(w: Seq<Seq<(nat, Seq<int>)>>) -> Seq<int> {
        Seq::new(max_term_len(w, w.len()) + 1, |t: int| products_at::<F>(w, t as nat, w.len()))
    }

    open spec fn spec_fix_variable(w: Seq<Seq<(nat, Seq<int>)>>, val: int) -> Seq<Seq<(nat, Seq<int>)>> {
        w.map_values(|t: Seq<(nat, Seq<int>)>| t.map_values(|p: (nat, Seq<int>)| fix_poly::<F>(p, val)))
    }

    open spec fn spec_final_value(w: Seq<Seq<(nat, Seq<int>)>>) -> Option<int> {
        Some(final_sum::<F>(w, w.len()))
    }

    fn num_vars(&self) -> (r: usize) {
        if self.terms.len() > 0 && self.terms[0].len() > 0 {
            assert(self@[0][0] == self.terms@[0]@[0]@);
            self.terms[0][0].num_vars()
        } else {
            0
        }
    }

    fn round_poly_degree(&self) -> (r: usize) {
        let mut best: usize = 0;
        let mut k: usize = 0;
        while k < self.terms.len()
            invariant
                k <= self.terms@.len(),
                best == max_term_len(self@, k as nat),
            decreases self.terms@.len() - k,
        {
            assert(self@[k as int].len() == self.terms@[k as int]@.len());
            if self.terms[k].len() > best {
                best = self.terms[k].len();
            }
            k = k + 1;
        }
        best
    }

    fn round_poly_evals(&self) -> (r: Vec<F>) {
        proof {
            use_type_invariant(self);
        }
        let ghost w = self@;
        let degree = self.round_poly_degree();
        proof {
            lemma_max_term_len_bound(w, w.len());
        }
        let num_eval_points = degree + 1;
        let mut out: Vec<F> = Vec::new();
        let mut t: usize = 0;
        while t < num_eval_points
            invariant
                w == self@,
                products_covered(w),
                num_eval_points == max_term_len(w, w.len()) + 1,
                t <= num_eval_points,
                out@.len() == t,
                forall|s: int| 0 <= s < t ==> #[trigger] values(out@)[s] == products_at::<F>(w, s as nat, w.len()),
            decreases num_eval_points - t,
        {
            let mut acc = F::zero();
            let mut k: usize = 0;
            while k < self.terms.len()
                invariant
                    w == self@,
                    products_covered(w),
                    k <= self.terms@.len(),
                    acc@ == products_at::<F>(w, t as nat, k as nat),
                decreases self.terms@.len() - k,
            {
                let factors = &self.terms[k];
                assert(w[k as int] == polys_view(factors@));
                assert(w[k as int].len() < usize::MAX);
                let term = term_sum_at(factors, t);
                acc = acc.add(term);
                k = k + 1;
            }
            let ghost old_out = out@;
            out.push(acc);
            proof {
                assert(values(out@) =~= values(old_out).push(acc@));
            }
            t = t + 1;
        }
        proof {
            assert(values(out@) =~= Self::spec_round_poly_evals(w));
        }
        out
    }

    fn fix_variable(self, val: F) -> (r: Self) {
        proof {
            use_type_invariant(&self);
        }
        let ghost w = self@;
        let Self { terms } = self;
        let mut rest = terms;
        let ghost n = rest@.len();
        let ghost target = Self::spec_fix_variable(w, val@);
        let mut out: Vec<Vec<MultilinearPoly<F>>> = Vec::new();
        while rest.len() > 0
            invariant
                products_covered(w),
                target == Self::spec_fix_variable(w, val@),
                n == w.len(),
                out@.len() + rest@.len() == n,
                forall|k: int| 0 <= k < rest@.len() ==> #[trigger] polys_view(rest@[k]@) == w[out@.len() + k],
                forall|k: int| 0 <= k < out@.len() ==> #[trigger] polys_view(out@[k]@) == target[k],
            decreases rest@.len(),
        {
            let ghost k0 = out@.len() as int;
            assert(polys_view(rest@[0]@) == w[k0]);
            let factors = rest.remove(0);
            let mut src = factors;
            let ghost fm = src@.len();
            let mut fixed: Vec<MultilinearPoly<F>> = Vec::new();
            while src.len() > 0
                invariant
                    fixed@.len() + src@.len() == fm,
                    fm == w[k0].len(),
                    forall|m: int| 0 <= m < src@.len() ==> #[trigger] src@[m]@ == w[k0][fixed@.len() + m],
                    forall|m: int| 0 <= m < fixed@.len() ==> #[trigger] fixed@[m]@ == fix_poly::<F>(
                        w[k0][m],
                        val@,
                    ),
                decreases src@.len(),
            {
                assert(src@[0]@ == w[k0][fixed@.len() as int]);
                let p = src.remove(0);
                let q = p.fix_variable(val);
                fixed.push(q);
            }
            proof {
                assert(polys_view(fixed@) =~= target[k0]);
            }
            out.push(fixed);
        }
        proof {
            assert(out@.map_values(|t: Vec<MultilinearPoly<F>>| polys_view(t@)) =~= target);
            lemma_fix_keeps_covered::<F>(w, val@);
        }
        Self { terms: out }
    }

    fn final_value(&self) -> (r: Option<F>) {
        let ghost w = self@;
        let mut acc = F::zero();
        let mut k: usize = 0;
        while k < self.terms.len()
            invariant
                w == self@,
                k <= self.terms@.len(),
                acc@ == final_sum::<F>(w, k as nat),
            decreases self.terms@.len() - k,
        {
            let factors = &self.terms[k];
            let ghost fv = polys_view(factors@);
            assert(w[k as int] == fv);
            let mut prod = F::one();
            let mut m: usize = 0;
            while m < factors.len()
                invariant
                    fv == polys_view(factors@),
                    m <= factors@.len(),
                    prod@ == final_product::<F>(fv, m as nat),
                decreases factors@.len() - m,
            {
                let evals = factors[m].evals();
                assert(fv[m as int] == factors@[m as int]@);
                if evals.len() > 0 {
                    prod = prod.mul(evals[0]);
                }
                m = m + 1;
            }
            acc = acc.add(prod);
            k = k + 1;
        }
        Some(acc)
    }
}

proof fn lemma_max_term_len_bound(w: Seq<Seq<(nat, Seq<int>)>>, n: nat)
    requires
        products_covered(w),
        n <= w.len(),
    ensures
        max_term_len(w, n) < usize::MAX,
    decreases n,
{
    if n > 0 {
        lemma_max_term_len_bound(w, (n - 1) as nat);
        assert(w[n - 1].len() < usize::MAX);
    }
}

proof fn lemma_fix_keeps_covered<F: Field>(w: Seq<Seq<(nat, Seq<int>)>>, val: int)
    requires
        products_covered(w),
    ensures
        products_covered(SumOfProductsWitness::<F>::spec_fix_variable(w, val)),
{
    let f = SumOfProductsWitness::<F>::spec_fix_variable(w, val);
    assert forall|k: int| 0 <= k < f.len() implies {
        &&& #[trigger] f[k].len() < usize::MAX
        &&& forall|m: int| 0 <= m < f[k].len() ==> f[k][0].1.len() <= #[trigger] f[k][m].1.len()
    } by {
        assert(w[k].len() < usize::MAX);
        assert forall|m: int| 0 <= m < f[k].len() implies f[k][0].1.len() <= #[trigger] f[k][m].1.len() by {
            assert(w[k][0].1.len() <= w[k][m].1.len());
            assert(w[k][0].1.len() / 2 <= w[k][m].1.len() / 2) by (nonlinear_arith)
                requires w[k][0].1.len() <= w[k][m].1.len();
        }
    }
}

} // verus!
