//! Gate constraints over a columnar trace (PLONK), transition constraints
//! over consecutive rows (AIR), and customizable constraint systems (CCS),
//! each turned into a multilinear polynomial for sumcheck.

use vstd::prelude::*;
use vstd::arithmetic::power2::{is_pow2, pow2};

pub mod air;
pub mod ccs;
pub mod error;



pub use self::air::{AirTrace, FibTransition, MulTransition, TransitionConstraint};
pub use self::ccs::{CcsInstance, SparseMatrix};
pub use self::error::Error;

use crate::field::algebra::lemma_sub_zero_iff;
use crate::field::{in_field, values, Field};
use crate::poly::MultilinearPoly;
use crate::util::{is_power_of_two, log2_exact, pow2_usize};

verus! {

/// A gate constraint on one row of wire values; zero when satisfied.
pub trait Gate<F: Field> {
    spec fn spec_num_wires() -> nat;

    /// The constraint's value on the wires of a row.
    spec fn spec_evaluate_row(wires: Seq<int>) -> int;

    fn evaluate_row(wires: &[F]) -> (r: F)
        requires
            wires@.len() >= Self::spec_num_wires(),
        ensures
            r@ == Self::spec_evaluate_row(values(wires@));

    fn num_wires() -> (r: usize)
        ensures
            r == Self::spec_num_wires();
}

/// `a + b - c`.
pub struct AddGate;

impl<F: Field> Gate<F> for AddGate {
    open spec fn spec_num_wires() -> nat {
        3
    }

    open spec fn spec_evaluate_row(w: Seq<int>) -> int {
        F::vsub(F::vadd(w[0], w[1]), w[2])
    }

    fn evaluate_row(wires: &[F]) -> (r: F) {
        wires[0].add(wires[1]).sub(wires[2])
    }

    fn num_wires() -> (r: usize) {
        3
    }
}

/// `a * b - c`.
pub struct MulGate;

impl<F: Field> Gate<F> for MulGate {
    open spec fn spec_num_wires() -> nat {
        3
    }

    open spec fn spec_evaluate_row(w: Seq<int>) -> int {
        F::vsub(F::vmul(w[0], w[1]), w[2])
    }

    fn evaluate_row(wires: &[F]) -> (r: F) {
        wires[0].mul(wires[1]).sub(wires[2])
    }

    fn num_wires() -> (r: usize) {
        3
    }
}

/// `a * (1 - a)`, zero exactly on booleans.
pub struct BoolGate;

impl<F: Field> Gate<F> for BoolGate {
    open spec fn spec_num_wires() -> nat {
        1
    }

    open spec fn spec_evaluate_row(w: Seq<int>) -> int {
        F::vmul(w[0], F::vsub(1, w[0]))
    }

    fn evaluate_row(wires: &[F]) -> (r: F) {
        wires[0].mul(F::one().sub(wires[0]))
    }

    fn num_wires() -> (r: usize) {
        1
    }
}

/// The addition gate vanishes on a row exactly when `a + b == c`.
pub proof fn lemma_add_gate_vanishes<F: Field>(w: Seq<int>)
    requires
        w.len() >= 3,
        in_field::<F>(w[0]),
        in_field::<F>(w[1]),
        in_field::<F>(w[2]),
    ensures
        (<AddGate as Gate<F>>::spec_evaluate_row(w) == 0) <==> (F::vadd(w[0], w[1]) == w[2]),
{
    F::lemma_closed(w[0], w[1]);
    lemma_sub_zero_iff::<F>(F::vadd(w[0], w[1]), w[2]);
}

/// The multiplication gate vanishes on a row exactly when `a * b == c`.
pub proof fn lemma_mul_gate_vanishes<F: Field>(w: Seq<int>)
    requires
        w.len() >= 3,
        in_field::<F>(w[0]),
        in_field::<F>(w[1]),
        in_field::<F>(w[2]),
    ensures
        (<MulGate as Gate<F>>::spec_evaluate_row(w) == 0) <==> (F::vmul(w[0], w[1]) == w[2]),
{
    F::lemma_closed(w[0], w[1]);
    lemma_sub_zero_iff::<F>(F::vmul(w[0], w[1]), w[2]);
}

/// The values of a list of columns.
pub open spec fn column_values<F: Field>(cols: Seq<Vec<F>>) -> Seq<Seq<int>> {
    cols.map_values(|c: Vec<F>| values(c@))
}

/// The first column from `k` on whose length is not `n`.
pub open spec fn first_len_mismatch(cols: Seq<Seq<int>>, n: nat, k: nat) -> Option<nat>
    decreases cols.len() - k,
{
    if k >= cols.len() {
        None
    } else if cols[k as int].len() != n {
        Some(k)
    } else {
        first_len_mismatch(cols, n, k + 1)
    }
}

/// The length of the first column, or zero.
pub open spec fn first_len(cols: Seq<Seq<int>>) -> nat {
    if cols.len() > 0 {
        cols[0].len()
    } else {
        0
    }
}

/// Wire assignments as columns: `columns[wire][row]`, with a power-of-two
/// number of rows.
#[derive(Debug)]
pub struct PlonkTrace<F: Field> {
    num_rows_log2: usize,
    columns: Vec<Vec<F>>,
}

impl<F: Field> View for PlonkTrace<F> {
    type V = (nat, Seq<Seq<int>>);

    /// The base-2 logarithm of the number of rows, and the columns' values.
    closed spec fn view(&self) -> (nat, Seq<Seq<int>>) {
        (self.num_rows_log2 as nat, column_values(self.columns@))
    }
}

impl<F: Field> PlonkTrace<F> {
    #[verifier::type_invariant]
    closed spec fn rectangular(self) -> bool {
        &&& self@.1.len() > 0
        &&& forall|c: int| 0 <= c < self@.1.len() ==> #[trigger] self@.1[c].len() == pow2(self@.0)
    }

    /// Requires a nonempty first column of power-of-two length, and every
    /// other column of the same length.
    pub fn new(columns: Vec<Vec<F>>) -> (r: Result<Self, Error>)
        ensures
            ({
                let cols = column_values(columns@);
                let n = first_len(cols);
                &&& n == 0 ==> r == Err::<Self, Error>(Error::EmptyTrace)
                &&& n != 0 && !is_pow2(n as int) ==> r == Err::<Self, Error>(
                    Error::RowCountNotPowerOfTwo { len: n as usize },
                )
                &&& n != 0 && is_pow2(n as int) && first_len_mismatch(cols, n, 1) is Some ==> r
                    == Err::<Self, Error>(
                    Error::ColumnLengthMismatch {
                        expected: n as usize,
                        got: cols[first_len_mismatch(cols, n, 1)->0 as int].len() as usize,
                    },
                )
                &&& n != 0 && is_pow2(n as int) && first_len_mismatch(cols, n, 1) is None ==> r is Ok
                    && r->Ok_0@.1 == cols && pow2(r->Ok_0@.0) == n
            }),
    {
        let ghost cols = column_values(columns@);
        let num_rows = if columns.len() > 0 {
            columns[0].len()
        } else {
            0
        };
        assert(num_rows == first_len(cols));
        if num_rows == 0 {
            return Err(Error::EmptyTrace);
        }
        if !is_power_of_two(num_rows) {
            return Err(Error::RowCountNotPowerOfTwo { len: num_rows });
        }
        let mut k: usize = 1;
        while k < columns.len()
            invariant
                cols == column_values(columns@),
                num_rows == first_len(cols),
                num_rows > 0,
                is_pow2(num_rows as int),
                1 <= k <= columns@.len(),
                first_len_mismatch(cols, num_rows as nat, 1) == first_len_mismatch(cols, num_rows as nat, k as nat),
                forall|c: int| 0 <= c < k ==> #[trigger] cols[c].len() == num_rows,
            decreases columns@.len() - k,
        {
            assert(cols[k as int].len() == columns@[k as int]@.len());
            if columns[k].len() != num_rows {
                assert(first_len_mismatch(cols, num_rows as nat, k as nat) == Some(k as nat));
                return Err(Error::ColumnLengthMismatch { expected: num_rows, got: columns[k].len() });
            }
            k = k + 1;
        }
        assert(first_len_mismatch(cols, num_rows as nat, k as nat) is None);
        let log2 = log2_exact(num_rows);
        Ok(Self { num_rows_log2: log2 as usize, columns })
    }

    pub fn num_rows(&self) -> (r: usize)
        ensures
            r == pow2(self@.0),
    {
        proof {
            use_type_invariant(self);
            assert(self@.1[0].len() == self.columns@[0]@.len());
        }
        let len0 = self.columns[0].len();
        assert(len0 == pow2(self@.0));
        pow2_usize(self.num_rows_log2)
    }

    pub fn num_rows_log2(&self) -> (r: usize)
        ensures
            r == self@.0,
    {
        self.num_rows_log2
    }

    pub fn num_columns(&self) -> (r: usize)
        ensures
            r == self@.1.len(),
    {
        self.columns.len()
    }

    pub fn columns(&self) -> (r: &[Vec<F>])
        ensures
            column_values(r@) == self@.1,
    {
        self.columns.as_slice()
    }
}

/// The values of a gate's constraint on every row of the columns `cols`
/// (of `2^k` rows each).
pub open spec fn gate_evals<F: Field, G: Gate<F>>(cols: Seq<Seq<int>>, k: nat) -> Seq<int> {
    Seq::new(
        pow2(k),
        |row: int| G::spec_evaluate_row(Seq::new(G::spec_num_wires(), |c: int| cols[c][row])),
    )
}

/// A gate's constraint at every row, as a multilinear polynomial over the
/// row index; all zero exactly when every row satisfies it.
pub fn constraint_poly<G, F>(trace: &PlonkTrace<F>) -> (r: Result<MultilinearPoly<F>, Error>) where
    G: Gate<F>,
    F: Field,

    ensures
        trace@.1.len() < G::spec_num_wires() ==> r == Err::<MultilinearPoly<F>, Error>(
            Error::InsufficientWires {
                gate_needs: G::spec_num_wires() as usize,
                trace_has: trace@.1.len() as usize,
            },
        ),
        trace@.1.len() >= G::spec_num_wires() ==> r is Ok && r->Ok_0@ == (
            trace@.0,
            gate_evals::<F, G>(trace@.1, trace@.0),
        ),
{
    proof {
        use_type_invariant(trace);
    }
    let needs = G::num_wires();
    if trace.num_columns() < needs {
        return Err(Error::InsufficientWires { gate_needs: needs, trace_has: trace.num_columns() });
    }
    let n = trace.num_rows();
    let ghost cols = trace@.1;
    let ghost target = gate_evals::<F, G>(cols, trace@.0);
    let mut evals: Vec<F> = Vec::new();
    let mut row: usize = 0;
    while row < n
        invariant
            cols == trace@.1,
            cols == column_values(trace.columns@),
            target == gate_evals::<F, G>(cols, trace@.0),
            n == pow2(trace@.0),
            needs == G::spec_num_wires(),
            needs <= cols.len(),
            forall|c: int| 0 <= c < cols.len() ==> #[trigger] cols[c].len() == pow2(trace@.0),
            row <= n,
            values(evals@) == target.subrange(0, row as int),
        decreases n - row,
    {
        let mut wires: Vec<F> = Vec::new();
        let mut c: usize = 0;
        while c < needs
            invariant
                cols == column_values(trace.columns@),
                needs <= cols.len(),
                forall|c2: int| 0 <= c2 < cols.len() ==> #[trigger] cols[c2].len() == pow2(trace@.0),
                row < n,
                n == pow2(trace@.0),
                c <= needs,
                values(wires@) == Seq::new(c as nat, |c2: int| cols[c2][row as int]),
            decreases needs - c,
        {
            assert(cols[c as int] == values(trace.columns@[c as int]@));
            assert(cols[c as int].len() == pow2(trace@.0));
            let v = trace.columns[c][row];
            let ghost old_w = wires@;
            wires.push(v);
            proof {
                assert(v@ == cols[c as int][row as int]);
                assert(values(wires@) =~= values(old_w).push(v@));
                assert(values(wires@) =~= Seq::new((c + 1) as nat, |c2: int| cols[c2][row as int]));
            }
            c = c + 1;
        }
        let e = G::evaluate_row(wires.as_slice());
        let ghost old_e = evals@;
        evals.push(e);
        proof {
            assert(values(wires@) =~= Seq::new(G::spec_num_wires(), |c2: int| cols[c2][row as int]));
            assert(values(evals@) =~= values(old_e).push(e@));
            assert(target.subrange(0, row + 1) =~= target.subrange(0, row as int).push(target[row as int]));
        }
        row = row + 1;
    }
    proof {
        assert(values(evals@) =~= target);
        crate::util::lemma_pow2_fits(trace@.0);
    }
    match MultilinearPoly::from_evals(trace.num_rows_log2(), evals) {
        Ok(p) => Ok(p),
        Err(e) => Err(Error::from(e)),
    }
}

} // verus!
