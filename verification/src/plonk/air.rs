//! Algebraic intermediate representation: a row-major table whose
//! consecutive rows must satisfy a transition constraint.

use vstd::prelude::*;
use vstd::arithmetic::power2::{is_pow2, pow2};

use super::error::Error;
use crate::field::algebra::lemma_sub_zero_iff;
use crate::field::{in_field, values, Field};
use crate::poly::MultilinearPoly;
use crate::util::{is_power_of_two, log2_exact, pow2_usize};

verus! {

/// A constraint `C(curr, next)` on a row and the row after it; zero when
/// satisfied.
pub trait TransitionConstraint<F: Field> {
    /// How many leading columns of each row the constraint reads.
    spec fn spec_arity(&self) -> nat;

    spec fn spec_evaluate(&self, curr: Seq<int>, next: Seq<int>) -> int;

    spec fn spec_degree(&self) -> nat;

    fn evaluate(&self, curr: &[F], next: &[F]) -> (r: F)
        requires
            curr@.len() >= self.spec_arity(),
            next@.len() >= self.spec_arity(),
        ensures
            r@ == self.spec_evaluate(values(curr@), values(next@));

    fn degree(&self) -> (r: usize)
        ensures
            r == self.spec_degree();
}

/// `curr[0] + curr[1] - next[0]`: the Fibonacci step.
pub struct FibTransition;

impl<F: Field> TransitionConstraint<F> for FibTransition {
    open spec fn spec_arity(&self) -> nat {
        2
    }

    open spec fn spec_evaluate(&self, curr: Seq<int>, next: Seq<int>) -> int {
        F::vsub(F::vadd(curr[0], curr[1]), next[0])
    }

    open spec fn spec_degree(&self) -> nat {
        1
    }

    fn evaluate(&self, curr: &[F], next: &[F]) -> (r: F) {
        curr[0].add(curr[1]).sub(next[0])
    }

    fn degree(&self) -> (r: usize) {
        1
    }
}

/// `curr[0] * curr[1] - next[0]`.
pub struct MulTransition;

impl<F: Field> TransitionConstraint<F> for MulTransition {
    open spec fn spec_arity(&self) -> nat {
        2
    }

    open spec fn spec_evaluate(&self, curr: Seq<int>, next: Seq<int>) -> int {
        F::vsub(F::vmul(curr[0], curr[1]), next[0])
    }

    open spec fn spec_degree(&self) -> nat {
        2
    }

    fn evaluate(&self, curr: &[F], next: &[F]) -> (r: F) {
        curr[0].mul(curr[1]).sub(next[0])
    }

    fn degree(&self) -> (r: usize) {
        2
    }
}

/// The Fibonacci transition vanishes exactly when `curr[0] + curr[1] == next[0]`.
/// The multiplication transition vanishes exactly when the next row's first
/// entry is the product of the current row's two entries.
pub proof fn lemma_mul_transition_vanishes<F: Field>(curr: Seq<int>, next: Seq<int>)
    requires
        curr.len() >= 2,
        next.len() >= 1,
        in_field::<F>(curr[0]),
        in_field::<F>(curr[1]),
        in_field::<F>(next[0]),
    ensures
        (<MulTransition as TransitionConstraint<F>>::spec_evaluate(&MulTransition, curr, next) == 0)
            <==> (F::vmul(curr[0], curr[1]) == next[0]),
{
    F::lemma_closed(curr[0], curr[1]);
    lemma_sub_zero_iff::<F>(F::vmul(curr[0], curr[1]), next[0]);
}

pub proof fn lemma_fib_transition_vanishes<F: Field>(curr: Seq<int>, next: Seq<int>)
    requires
        curr.len() >= 2,
        next.len() >= 1,
        in_field::<F>(curr[0]),
        in_field::<F>(curr[1]),
        in_field::<F>(next[0]),
    ensures
        (<FibTransition as TransitionConstraint<F>>::spec_evaluate(&FibTransition, curr, next) == 0)
            <==> (F::vadd(curr[0], curr[1]) == next[0]),
{
    F::lemma_closed(curr[0], curr[1]);
    lemma_sub_zero_iff::<F>(F::vadd(curr[0], curr[1]), next[0]);
}

/// Row `i` of a row-major table of the given width.
pub open spec fn table_row(data: Seq<int>, width: nat, i: int) -> Seq<int> {
    data.subrange(i * width, (i + 1) * width)
}

/// A table of `width` columns and a power-of-two number of rows, stored row
/// by row.
#[derive(Debug)]
pub struct AirTrace<F: Field> {
    width: usize,
    num_rows_log2: usize,
    data: Vec<F>,
}

impl<F: Field> View for AirTrace<F> {
    type V = (nat, nat, Seq<int>);

    /// The width, the base-2 logarithm of the number of rows, and the values.
    closed spec fn view(&self) -> (nat, nat, Seq<int>) {
        (self.width as nat, self.num_rows_log2 as nat, values(self.data@))
    }
}

proof fn lemma_row_bounds(i: int, n: int, w: int)
    requires
        0 <= i < n,
        w > 0,
    ensures
        0 <= i * w,
        (i + 1) * w == i * w + w,
        (i + 1) * w <= w * n,
{
    assert(0 <= i * w) by (nonlinear_arith)
        requires 0 <= i, w > 0;
    assert((i + 1) * w == i * w + w) by (nonlinear_arith);
    assert((i + 1) * w <= w * n) by (nonlinear_arith)
        requires i + 1 <= n, w > 0;
}

impl<F: Field> AirTrace<F> {
    #[verifier::type_invariant]
    closed spec fn rectangular(self) -> bool {
        &&& self.width > 0
        &&& self.data@.len() == self.width * pow2(self.num_rows_log2 as nat)
    }

    /// Requires a nonzero width dividing the length, and a power-of-two
    /// number of rows.
    pub fn new(width: usize, data: Vec<F>) -> (r: Result<Self, Error>)
        ensures
            data@.len() == 0 || width == 0 ==> r == Err::<Self, Error>(Error::EmptyTrace),
            data@.len() != 0 && width != 0 && (data@.len() as int) % (width as int) != 0 ==> r == Err::<
                Self,
                Error,
            >(Error::ColumnLengthMismatch { expected: width, got: ((data@.len() as int) % (width as int)) as usize }),
            data@.len() != 0 && width != 0 && (data@.len() as int) % (width as int) == 0 && !is_pow2(
                (data@.len() as int) / (width as int),
            ) ==> r == Err::<Self, Error>(
                Error::RowCountNotPowerOfTwo { len: ((data@.len() as int) / (width as int)) as usize },
            ),
            data@.len() != 0 && width != 0 && (data@.len() as int) % (width as int) == 0 && is_pow2(
                (data@.len() as int) / (width as int),
            ) ==> r is Ok && r->Ok_0@.0 == width && r->Ok_0@.2 == values(data@) && pow2(r->Ok_0@.1)
                == (data@.len() as int) / (width as int),
    {
        if data.len() == 0 || width == 0 {
            Err(Error::EmptyTrace)
        } else if data.len() % width != 0 {
            Err(Error::ColumnLengthMismatch { expected: width, got: data.len() % width })
        } else {
            let num_rows = data.len() / width;
            if !is_power_of_two(num_rows) {
                Err(Error::RowCountNotPowerOfTwo { len: num_rows })
            } else {
                let log2 = log2_exact(num_rows);
                proof {
                    assert(data@.len() == width * num_rows) by (nonlinear_arith)
                        requires (data@.len() as int) % (width as int) == 0, num_rows == (data@.len() as int) / (width as int), width > 0;
                }
                Ok(Self { width, num_rows_log2: log2 as usize, data })
            }
        }
    }

    pub fn num_rows(&self) -> (r: usize)
        ensures
            r == pow2(self@.1),
    {
        proof {
            use_type_invariant(self);
            vstd::arithmetic::power2::lemma_pow2_pos(self@.1);
            assert(pow2(self@.1) <= self.data@.len()) by (nonlinear_arith)
                requires self.data@.len() == self.width * pow2(self@.1), self.width > 0;
        }
        let len = self.data.len();
        pow2_usize(self.num_rows_log2)
    }

    pub fn width(&self) -> (r: usize)
        ensures
            r == self@.0,
    {
        self.width
    }

    /// Row `i`, for `i` below the number of rows.
    pub fn row(&self, i: usize) -> (r: &[F])
        requires
            i < pow2(self@.1),
        ensures
            values(r@) == table_row(self@.2, self@.0, i as int),
            r@.len() == self@.0,
    {
        proof {
            use_type_invariant(self);
            lemma_row_bounds(i as int, pow2(self@.1) as int, self.width as int);
            assert(pow2(self@.1) <= self.width * pow2(self@.1)) by (nonlinear_arith)
                requires self.width > 0;
        }
        let len = self.data.len();
        assert(i + 1 <= len);
        let start = i * self.width;
        let end = (i + 1) * self.width;
        let r = vstd::slice::slice_subrange(self.data.as_slice(), start, end);
        proof {
            assert(values(r@) =~= table_row(self@.2, self@.0, i as int));
        }
        r
    }

    /// The constraint on every row and the row after it, for the
    /// `num_rows - 1` consecutive pairs, zero-padded to `num_rows` values, as
    /// a multilinear polynomial over the row index.
    pub fn transition_poly<C: TransitionConstraint<F>>(&self, constraint: &C) -> (r: Result<
        MultilinearPoly<F>,
        Error,
    >)
        requires
            self@.0 >= constraint.spec_arity(),
        ensures
            r is Ok,
            r->Ok_0@ == (
                self@.1,
                Seq::new(
                    pow2(self@.1),
                    |i: int|
                        if i + 1 < pow2(self@.1) { constraint.spec_evaluate(table_row(self@.2, self@.0, i), table_row(self@.2, self@.0, i + 1)) } else { 0 },
                ),
            ),
    {
        proof {
            use_type_invariant(self);
        }
        let n = self.num_rows();
        let ghost target = Seq::new(
            pow2(self@.1),
            |i: int|
                if i + 1 < pow2(self@.1) { constraint.spec_evaluate(table_row(self@.2, self@.0, i), table_row(self@.2, self@.0, i + 1)) } else { 0 },
        );
        let mut evals: Vec<F> = Vec::new();
        let mut i: usize = 0;
        while i < n
            invariant
                n == pow2(self@.1),
                self@.0 >= constraint.spec_arity(),
                target == Seq::new(
                    pow2(self@.1),
                    |j: int|
                        if j + 1 < pow2(self@.1) { constraint.spec_evaluate(table_row(self@.2, self@.0, j), table_row(self@.2, self@.0, j + 1)) } else { 0 },
                ),
                i <= n,
                values(evals@) == target.subrange(0, i as int),
            decreases n - i,
        {
            let e = if i + 1 < n {
                let curr = self.row(i);
                let next = self.row(i + 1);
                constraint.evaluate(curr, next)
            } else {
                F::zero()
            };
            let ghost old_e = evals@;
            evals.push(e);
            proof {
                assert(values(evals@) =~= values(old_e).push(e@));
                assert(target.subrange(0, i + 1) =~= target.subrange(0, i as int).push(target[i as int]));
            }
            i = i + 1;
        }
        proof {
            assert(values(evals@) =~= target);
            crate::util::lemma_pow2_fits(self@.1);
        }
        match MultilinearPoly::from_evals(self.num_rows_log2, evals) {
            Ok(p) => Ok(p),
            Err(e) => Err(Error::from(e)),
        }
    }
}

} // verus!
