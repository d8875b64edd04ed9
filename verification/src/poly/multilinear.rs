use vstd::prelude::*;
use vstd::arithmetic::power2::{lemma2_to64, lemma_pow2_strictly_increases, lemma_pow2_unfold, pow2};

use super::error::Error;
use crate::field::algebra::{lemma_add_rearrange, lemma_interp_add};
use crate::field::{
    all_in_field, in_field, lemma_sum_in_field, lemma_values_in_field, sum_values, values, Field,
};
use crate::util::copy_vec;

verus! {

/// One step of interpolation: entry `i` is `t[2i] + (t[2i+1] - t[2i]) * r`,
/// i.e. the first variable fixed to `r`.
pub open spec fn fold_table<F: Field>(t: Seq<int>, r: int) -> Seq<int> {
    Seq::new(
        t.len() / 2,
        |i: int| F::vadd(t[2 * i], F::vmul(F::vsub(t[2 * i + 1], t[2 * i]), r)),
    )
}

/// The value at `point` of the multilinear polynomial with evaluation table
/// `t`, by fixing one variable after another.
pub open spec fn ml_evaluate<F: Field>(t: Seq<int>, point: Seq<int>) -> int
    decreases point.len(),
{
    if point.len() == 0 {
        if t.len() > 0 {
            t[0]
        } else {
            0
        }
    } else {
        ml_evaluate::<F>(fold_table::<F>(t, point[0]), point.drop_first())
    }
}

/// The entries at even positions, `t[0], t[2], ...` (first variable 0).
pub open spec fn even_part(t: Seq<int>) -> Seq<int> {
    Seq::new(t.len() / 2, |i: int| t[2 * i])
}

/// The entries at odd positions, `t[1], t[3], ...` (first variable 1).
pub open spec fn odd_part(t: Seq<int>) -> Seq<int> {
    Seq::new(t.len() / 2, |i: int| t[2 * i + 1])
}

/// The shape every constructor gives a table and every operation on
/// polynomials of one shape keeps: `2^k` values for `k` variables, or no
/// values at all once a constant has had a variable fixed.
pub open spec fn well_sized(v: (nat, Seq<int>)) -> bool {
    v.1.len() == pow2(v.0) || v.1.len() == 0
}

/// A well-sized table in at least one variable splits into pairs.
pub proof fn lemma_well_sized_even(v: (nat, Seq<int>))
    requires
        well_sized(v),
        v.0 > 0,
    ensures
        v.1.len() % 2 == 0,
{
    lemma_pow2_unfold(v.0);
}

/// A table of `n` values fits `k` variables: it holds `2^m` values for
/// some `m <= k`, or none. Every polynomial's table fits its variables;
/// `from_evals` gives exactly `2^k`, and only `add` of polynomials of
/// different sizes, which keeps the common prefix, gives fewer.
pub open spec fn table_fits(k: nat, n: nat) -> bool {
    n == 0 || exists|m: nat| m <= k && #[trigger] pow2(m) == n
}

/// Halving a fitting table fits one variable fewer, and a table for no
/// variables halves to nothing.
proof fn lemma_table_fits_half(k: nat, n: nat)
    requires
        table_fits(k, n),
    ensures
        k > 0 ==> table_fits((k - 1) as nat, n / 2),
        k == 0 ==> n / 2 == 0,
{
    if n > 0 {
        let m = choose|m: nat| m <= k && #[trigger] pow2(m) == n;
        if m == 0 {
            lemma2_to64();
        } else {
            lemma_pow2_unfold(m);
            assert(pow2((m - 1) as nat) == n / 2);
        }
    }
}

/// The shorter of two fitting tables fits the first one's variables.
proof fn lemma_table_fits_min(k: nat, a: nat, k2: nat, b: nat)
    requires
        table_fits(k, a),
        table_fits(k2, b),
        b < a,
    ensures
        table_fits(k, b),
{
    if b > 0 {
        let m = choose|m: nat| m <= k && #[trigger] pow2(m) == a;
        let m2 = choose|m2: nat| m2 <= k2 && #[trigger] pow2(m2) == b;
        if m <= m2 {
            if m < m2 {
                lemma_pow2_strictly_increases(m, m2);
            }
        }
        assert(m2 < m);
        assert(pow2(m2) == b);
    }
}

/// A multilinear polynomial in `k` variables by its `2^k` values on the
/// boolean hypercube: `evals[i] = P(b_0, ..., b_{k-1})` for
/// `i = b_0 + 2 b_1 + ... + 2^{k-1} b_{k-1}`.
#[derive(Debug)]
pub struct MultilinearPoly<F> {
    num_vars: usize,
    evals: Vec<F>,
}

impl<F: Field> View for MultilinearPoly<F> {
    type V = (nat, Seq<int>);

    /// The number of variables and the values of the evaluation table.
    closed spec fn view(&self) -> (nat, Seq<int>) {
        (self.num_vars as nat, values(self.evals@))
    }
}

fn fold_evals<F: Field>(table: &Vec<F>, r: F) -> (out: Vec<F>)
    ensures
        values(out@) == fold_table::<F>(values(table@), r@),
{
    let half = table.len() / 2;
    let ghost target = fold_table::<F>(values(table@), r@);
    let mut out: Vec<F> = Vec::new();
    let mut i: usize = 0;
    while i < half
        invariant
            half == table.len() / 2,
            i <= half,
            target == fold_table::<F>(values(table@), r@),
            values(out@) == target.subrange(0, i as int),
        decreases half - i,
    {
        let lo = table[2 * i];
        let hi = table[2 * i + 1];
        let v = lo.add(hi.sub(lo).mul(r));
        let ghost old_out = out@;
        out.push(v);
        proof {
            assert(values(out@) =~= values(old_out).push(v@));
            assert(target.subrange(0, i + 1) =~= target.subrange(0, i as int).push(target[i as int]));
        }
        i = i + 1;
    }
    proof {
        assert(values(out@) =~= target);
    }
    out
}

impl<F> MultilinearPoly<F> {
    /// The table fits the number of variables, which is below the word size.
    #[verifier::type_invariant]
    spec fn fits(self) -> bool {
        self.num_vars < usize::BITS && table_fits(self.num_vars as nat, self.evals@.len())
    }
}

impl<F: Field> MultilinearPoly<F> {
    /// Requires exactly `2^num_vars` evaluations.
    pub fn from_evals(num_vars: usize, evals: Vec<F>) -> (r: Result<Self, Error>)
        requires
            num_vars < usize::BITS,
        ensures
            evals@.len() != pow2(num_vars as nat) ==> r == Err::<Self, Error>(
                Error::EvaluationDimensionMismatch {
                    expected: pow2(num_vars as nat) as usize,
                    got: evals@.len() as usize,
                },
            ),
            evals@.len() == pow2(num_vars as nat) ==> r is Ok && r->Ok_0@ == (
                num_vars as nat,
                values(evals@),
            ),
            r is Ok ==> well_sized(r->Ok_0@),
    {
        proof {
            vstd::bits::lemma_usize_pow2_no_overflow(num_vars as nat);
            vstd::bits::lemma_usize_shl_is_mul(1, num_vars);
        }
        let expected = 1usize << num_vars;
        if evals.len() != expected {
            Err(Error::EvaluationDimensionMismatch { expected, got: evals.len() })
        } else {
            proof {
                assert(pow2(num_vars as nat) == evals@.len());
            }
            Ok(Self { num_vars, evals })
        }
    }

    pub fn num_vars(&self) -> (r: usize)
        ensures
            r == self@.0,
            table_fits(self@.0, self@.1.len()),
    {
        proof {
            use_type_invariant(self);
        }
        self.num_vars
    }

    pub fn num_evals(&self) -> (r: usize)
        ensures
            r == self@.1.len(),
    {
        self.evals.len()
    }

    pub fn evals(&self) -> (r: &[F])
        ensures
            values(r@) == self@.1,
            table_fits(self@.0, self@.1.len()),
    {
        proof {
            use_type_invariant(self);
        }
        self.evals.as_slice()
    }

    pub fn into_evals(self) -> (r: Vec<F>)
        ensures
            values(r@) == self@.1,
    {
        self.evals
    }

    /// Evaluates at a point of `F^k` by successive linear interpolation.
    pub fn evaluate(&self, point: &[F]) -> (r: Result<F, Error>)
        ensures
            point@.len() != self@.0 ==> r == Err::<F, Error>(
                Error::EvaluationDimensionMismatch { expected: self@.0 as usize, got: point@.len() as usize },
            ),
            point@.len() == self@.0 ==> r is Ok && r->Ok_0@ == ml_evaluate::<F>(
                self@.1,
                values(point@),
            ),
    {
        if point.len() != self.num_vars {
            return Err(Error::EvaluationDimensionMismatch { expected: self.num_vars, got: point.len() });
        }
        let ghost goal = ml_evaluate::<F>(values(self.evals@), values(point@));
        let mut table = copy_vec(&self.evals);
        let mut j: usize = 0;
        proof {
            assert(values(point@).skip(0) =~= values(point@));
        }
        while j < point.len()
            invariant
                j <= point@.len(),
                goal == ml_evaluate::<F>(values(self.evals@), values(point@)),
                ml_evaluate::<F>(values(table@), values(point@).skip(j as int)) == goal,
            decreases point@.len() - j,
        {
            proof {
                let rest = values(point@).skip(j as int);
                assert(rest[0] == point@[j as int]@);
                assert(rest.drop_first() =~= values(point@).skip(j + 1));
            }
            table = fold_evals(&table, point[j]);
            j = j + 1;
        }
        proof {
            assert(values(point@).skip(j as int) =~= Seq::<int>::empty());
            F::lemma_order();
        }
        if table.len() > 0 {
            Ok(table[0])
        } else {
            Ok(F::zero())
        }
    }

    /// Fixes the first variable to `val`, leaving `k - 1` variables; the core
    /// step of the sumcheck protocol.
    pub fn fix_variable(self, val: F) -> (r: Self)
        ensures
            r@ == (
                if self@.0 > 0 {
                    (self@.0 - 1) as nat
                } else {
                    0
                },
                fold_table::<F>(self@.1, val@),
            ),
            well_sized(self@) ==> well_sized(r@),
    {
        proof {
            if well_sized(self@) && self@.0 > 0 && self@.1.len() > 0 {
                lemma_pow2_unfold(self@.0);
                assert(fold_table::<F>(self@.1, val@).len() == pow2((self@.0 - 1) as nat));
            }
            if well_sized(self@) && self@.0 == 0 {
                vstd::arithmetic::power2::lemma2_to64();
                assert(fold_table::<F>(self@.1, val@).len() == 0);
            }
        }
        proof {
            use_type_invariant(&self);
            lemma_table_fits_half(self.num_vars as nat, self.evals@.len());
        }
        let evals = fold_evals(&self.evals, val);
        let num_vars = self.num_vars.saturating_sub(1);
        proof {
            assert(values(evals@).len() == evals@.len());
            assert(evals@.len() == self.evals@.len() / 2);
            assert(num_vars as nat == if self.num_vars > 0 { (self.num_vars - 1) as nat } else { 0 });
        }
        Self { num_vars, evals }
    }

    /// `sum_{x in {0,1}^k} P(x)`.
    pub fn sum_over_hypercube(&self) -> (r: F)
        ensures
            r@ == sum_values::<F>(self@.1),
    {
        let mut acc = F::zero();
        let mut i: usize = 0;
        while i < self.evals.len()
            invariant
                i <= self.evals@.len(),
                acc@ == sum_values::<F>(values(self.evals@).subrange(0, i as int)),
            decreases self.evals@.len() - i,
        {
            proof {
                let s = values(self.evals@).subrange(0, i + 1);
                assert(s.drop_last() =~= values(self.evals@).subrange(0, i as int));
            }
            acc = acc.add(self.evals[i]);
            i = i + 1;
        }
        proof {
            assert(values(self.evals@).subrange(0, i as int) =~= values(self.evals@));
        }
        acc
    }

    /// The round polynomial of sumcheck as its values at 0 and 1: the sums
    /// over the hypercube with the first variable fixed to 0 and to 1.
    pub fn sumcheck_round_poly(&self) -> (r: (F, F))
        ensures
            r.0@ == sum_values::<F>(even_part(self@.1)),
            r.1@ == sum_values::<F>(odd_part(self@.1)),
    {
        let half = self.evals.len() / 2;
        let ghost t = values(self.evals@);
        let mut lo = F::zero();
        let mut hi = F::zero();
        let mut i: usize = 0;
        while i < half
            invariant
                half == self.evals@.len() / 2,
                half * 2 <= self.evals@.len(),
                t == values(self.evals@),
                i <= half,
                lo@ == sum_values::<F>(even_part(t).subrange(0, i as int)),
                hi@ == sum_values::<F>(odd_part(t).subrange(0, i as int)),
            decreases half - i,
        {
            proof {
                assert(even_part(t).subrange(0, i + 1).drop_last() =~= even_part(t).subrange(0, i as int));
                assert(odd_part(t).subrange(0, i + 1).drop_last() =~= odd_part(t).subrange(0, i as int));
            }
            assert(2 * i + 1 < self.evals.len());
            lo = lo.add(self.evals[2 * i]);
            hi = hi.add(self.evals[2 * i + 1]);
            i = i + 1;
        }
        proof {
            assert(even_part(t).subrange(0, i as int) =~= even_part(t));
            assert(odd_part(t).subrange(0, i as int) =~= odd_part(t));
        }
        (lo, hi)
    }

    /// Entry-wise sum over the common prefix of the two tables; the number of
    /// variables is taken from `self`.
    pub fn add(self, rhs: Self) -> (r: Self)
        ensures
            r@.0 == self@.0,
            r@.1.len() == if self@.1.len() <= rhs@.1.len() {
                self@.1.len()
            } else {
                rhs@.1.len()
            },
            forall|i: int| 0 <= i < r@.1.len() ==> #[trigger] r@.1[i] == F::vadd(self@.1[i], rhs@.1[i]),
            well_sized(self@) && well_sized(rhs@) && self@.0 == rhs@.0 ==> well_sized(r@),
    {
        let n = if self.evals.len() <= rhs.evals.len() {
            self.evals.len()
        } else {
            rhs.evals.len()
        };
        let mut evals: Vec<F> = Vec::new();
        let mut i: usize = 0;
        while i < n
            invariant
                n <= self.evals@.len(),
                n <= rhs.evals@.len(),
                i <= n,
                evals@.len() == i,
                forall|j: int| 0 <= j < i ==> #[trigger] evals@[j]@ == F::vadd(
                    self.evals@[j]@,
                    rhs.evals@[j]@,
                ),
            decreases n - i,
        {
            evals.push(self.evals[i].add(rhs.evals[i]));
            i = i + 1;
        }
        proof {
            use_type_invariant(&self);
            use_type_invariant(&rhs);
            if rhs.evals@.len() < self.evals@.len() {
                lemma_table_fits_min(
                    self.num_vars as nat,
                    self.evals@.len(),
                    rhs.num_vars as nat,
                    rhs.evals@.len(),
                );
            }
        }
        Self { num_vars: self.num_vars, evals }
    }

    /// Entry-wise negation.
    pub fn neg(self) -> (r: Self)
        ensures
            r@.0 == self@.0,
            r@.1.len() == self@.1.len(),
            forall|i: int| 0 <= i < r@.1.len() ==> #[trigger] r@.1[i] == F::vneg(self@.1[i]),
            well_sized(self@) ==> well_sized(r@),
    {
        let mut evals: Vec<F> = Vec::new();
        let mut i: usize = 0;
        while i < self.evals.len()
            invariant
                i <= self.evals@.len(),
                evals@.len() == i,
                forall|j: int| 0 <= j < i ==> #[trigger] evals@[j]@ == F::vneg(self.evals@[j]@),
            decreases self.evals@.len() - i,
        {
            evals.push(self.evals[i].neg());
            i = i + 1;
        }
        proof {
            use_type_invariant(&self);
        }
        Self { num_vars: self.num_vars, evals }
    }
}

impl<F: Field> Clone for MultilinearPoly<F> {
    fn clone(&self) -> (r: Self)
        ensures
            r@ == self@,
    {
        proof {
            use_type_invariant(self);
        }
        Self { num_vars: self.num_vars, evals: copy_vec(&self.evals) }
    }
}

} // verus!

verus! {

proof fn lemma_split_last_pair(t: Seq<int>)
    requires
        t.len() >= 2,
        t.len() % 2 == 0,
    ensures
        even_part(t).drop_last() == even_part(t.subrange(0, t.len() - 2)),
        odd_part(t).drop_last() == odd_part(t.subrange(0, t.len() - 2)),
        even_part(t).last() == t[t.len() - 2],
        odd_part(t).last() == t[t.len() - 1],
        t.drop_last().drop_last() == t.subrange(0, t.len() - 2),
        t.drop_last().last() == t[t.len() - 2],
{
    assert(even_part(t).drop_last() =~= even_part(t.subrange(0, t.len() - 2)));
    assert(odd_part(t).drop_last() =~= odd_part(t.subrange(0, t.len() - 2)));
    assert(t.drop_last().drop_last() =~= t.subrange(0, t.len() - 2));
}

/// The round polynomial's values at 0 and 1 add up to the sum over the
/// hypercube: `s(0) + s(1) == sum_x P(x)`.
pub proof fn lemma_round_poly_sum<F: Field>(t: Seq<int>)
    requires
        all_in_field::<F>(t),
        t.len() % 2 == 0,
    ensures
        F::vadd(sum_values::<F>(even_part(t)), sum_values::<F>(odd_part(t))) == sum_values::<F>(t),
    decreases t.len(),
{
    F::lemma_order();
    if t.len() == 0 {
        assert(even_part(t) =~= Seq::<int>::empty());
        assert(odd_part(t) =~= Seq::<int>::empty());
        F::lemma_add_laws(0, 0, 0);
    } else {
        let tp = t.subrange(0, t.len() - 2);
        let a = t[t.len() - 2];
        let b = t[t.len() - 1];
        lemma_split_last_pair(t);
        assert(all_in_field::<F>(tp));
        lemma_round_poly_sum::<F>(tp);
        let ep = sum_values::<F>(even_part(tp));
        let op = sum_values::<F>(odd_part(tp));
        assert(all_in_field::<F>(even_part(tp)));
        assert(all_in_field::<F>(odd_part(tp)));
        lemma_sum_in_field::<F>(even_part(tp));
        lemma_sum_in_field::<F>(odd_part(tp));
        lemma_sum_in_field::<F>(tp);
        assert(in_field::<F>(a));
        assert(in_field::<F>(b));
        lemma_add_rearrange::<F>(ep, a, op, b);
        F::lemma_add_laws(sum_values::<F>(tp), a, b);
        assert(sum_values::<F>(even_part(t)) == F::vadd(ep, a));
        assert(sum_values::<F>(odd_part(t)) == F::vadd(op, b));
        assert(sum_values::<F>(t.drop_last()) == F::vadd(sum_values::<F>(tp), a));
        assert(sum_values::<F>(t) == F::vadd(sum_values::<F>(t.drop_last()), b));
    }
}

/// Summing the table with the first variable fixed to `r` gives the round
/// polynomial at `r`: `sum_x P(r, x) == s(0) + (s(1) - s(0)) * r`.
pub proof fn lemma_fold_table_sum<F: Field>(t: Seq<int>, r: int)
    requires
        all_in_field::<F>(t),
        in_field::<F>(r),
        t.len() % 2 == 0,
    ensures
        sum_values::<F>(fold_table::<F>(t, r)) == F::vadd(
            sum_values::<F>(even_part(t)),
            F::vmul(F::vsub(sum_values::<F>(odd_part(t)), sum_values::<F>(even_part(t))), r),
        ),
    decreases t.len(),
{
    F::lemma_order();
    if t.len() == 0 {
        assert(even_part(t) =~= Seq::<int>::empty());
        assert(odd_part(t) =~= Seq::<int>::empty());
        assert(fold_table::<F>(t, r) =~= Seq::<int>::empty());
        F::lemma_add_laws(0, 0, 0);
        F::lemma_mul_laws(r, 0, 0);
        F::lemma_mul_laws(0, r, 0);
    } else {
        let tp = t.subrange(0, t.len() - 2);
        let a = t[t.len() - 2];
        let b = t[t.len() - 1];
        lemma_split_last_pair(t);
        assert(all_in_field::<F>(tp));
        lemma_fold_table_sum::<F>(tp, r);
        assert(fold_table::<F>(t, r).drop_last() =~= fold_table::<F>(tp, r));
        assert(fold_table::<F>(t, r).last() == F::vadd(a, F::vmul(F::vsub(b, a), r)));
        let ep = sum_values::<F>(even_part(tp));
        let op = sum_values::<F>(odd_part(tp));
        assert(all_in_field::<F>(even_part(tp)));
        assert(all_in_field::<F>(odd_part(tp)));
        lemma_sum_in_field::<F>(even_part(tp));
        lemma_sum_in_field::<F>(odd_part(tp));
        assert(in_field::<F>(a));
        assert(in_field::<F>(b));
        lemma_interp_add::<F>(ep, op, a, b, r);
    }
}

/// Evaluating at `(r, rest...)` is evaluating the polynomial with its first
/// variable fixed to `r` at `rest`.
pub proof fn lemma_evaluate_fix_variable<F: Field>(t: Seq<int>, point: Seq<int>)
    requires
        point.len() > 0,
    ensures
        ml_evaluate::<F>(t, point) == ml_evaluate::<F>(fold_table::<F>(t, point[0]), point.drop_first()),
{
}

} // verus!
