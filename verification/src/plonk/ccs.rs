//! Customizable constraint systems: `sum_i c_i * hadamard_{j in S_i} (M_j z) == 0`.

use vstd::prelude::*;
use vstd::arithmetic::power2::pow2;

use super::error::Error;
use crate::field::{values, Field};
use crate::poly::MultilinearPoly;
use crate::util::{trailing_zeros, trailing_zeros_spec};

verus! {

/// The smaller of two lengths.
pub open spec fn min_len(a: nat, b: nat) -> nat {
    if a <= b {
        a
    } else {
        b
    }
}

/// A matrix seen as its dimensions and its entries `(row, col, value)`.
pub type MatrixView = (nat, nat, Seq<(int, int, int)>);

/// `M z` over the first `k` entries, each adding `value * z[col]` to its row.
pub open spec fn mul_vec_prefix<F: Field>(m: (nat, nat, Seq<(int, int, int)>), z: Seq<int>, k: nat) -> Seq<int>
    decreases k,
{
    if k == 0 {
        Seq::new(m.0, |i: int| 0)
    } else {
        let acc = mul_vec_prefix::<F>(m, z, (k - 1) as nat);
        let e = m.2[k - 1];
        acc.update(e.0, F::vadd(acc[e.0], F::vmul(e.2, z[e.1])))
    }
}

/// The product `M z`.
pub open spec fn mul_vec_spec<F: Field>(m: (nat, nat, Seq<(int, int, int)>), z: Seq<int>) -> Seq<int> {
    mul_vec_prefix::<F>(m, z, m.2.len())
}

/// Every entry lies in a row of the matrix and a column of `z`.
pub open spec fn entries_in_range(m: (nat, nat, Seq<(int, int, int)>), z_len: nat) -> bool {
    forall|k: int|
        0 <= k < m.2.len() ==> 0 <= (#[trigger] m.2[k]).0 < m.0 && 0 <= m.2[k].1 < z_len
}

/// A matrix given by its nonzero entries.
#[derive(Debug)]
pub struct SparseMatrix<F> {
    num_rows: usize,
    num_cols: usize,
    entries: Vec<(usize, usize, F)>,
}

/// The entries of a matrix as integers.
pub open spec fn entry_values<F: Field>(e: Seq<(usize, usize, F)>) -> Seq<(int, int, int)> {
    e.map_values(|t: (usize, usize, F)| (t.0 as int, t.1 as int, t.2@))
}

impl<F: Field> View for SparseMatrix<F> {
    type V = (nat, nat, Seq<(int, int, int)>);

    closed spec fn view(&self) -> (nat, nat, Seq<(int, int, int)>) {
        (self.num_rows as nat, self.num_cols as nat, entry_values(self.entries@))
    }
}

impl<F: Field> SparseMatrix<F> {
    pub fn new(num_rows: usize, num_cols: usize, entries: Vec<(usize, usize, F)>) -> (r: Self)
        ensures
            r@ == (num_rows as nat, num_cols as nat, entry_values(entries@)),
    {
        Self { num_rows, num_cols, entries }
    }

    pub fn num_rows(&self) -> (r: usize)
        ensures
            r == self@.0,
    {
        self.num_rows
    }

    pub fn num_cols(&self) -> (r: usize)
        ensures
            r == self@.1,
    {
        self.num_cols
    }

    /// `M z`; every entry must index a row of `M` and a column of `z`.
    pub fn mul_vec(&self, z: &[F]) -> (r: Vec<F>)
        requires
            entries_in_range(self@, z@.len()),
        ensures
            values(r@) == mul_vec_spec::<F>(self@, values(z@)),
    {
        let ghost m = self@;
        let ghost zv = values(z@);
        let mut acc = filled(F::zero(), self.num_rows);
        let mut k: usize = 0;
        while k < self.entries.len()
            invariant
                m == self@,
                zv == values(z@),
                entries_in_range(m, z@.len()),
                k <= self.entries@.len(),
                values(acc@) == mul_vec_prefix::<F>(m, zv, k as nat),
                acc@.len() == m.0,
            decreases self.entries@.len() - k,
        {
            let (row, col, val) = self.entries[k];
            assert(m.2[k as int] == (row as int, col as int, val@));
            let updated = acc[row].add(val.mul(z[col]));
            let ghost old_acc = acc@;
            acc.set(row, updated);
            proof {
                assert(values(acc@) =~= values(old_acc).update(row as int, updated@));
            }
            k = k + 1;
        }
        acc
    }
}

/// `n` copies of `v`.
fn filled<F: Field>(v: F, n: usize) -> (r: Vec<F>)
    ensures
        values(r@) == Seq::new(n as nat, |i: int| v@),
        r@.len() == n,
{
    let mut r: Vec<F> = Vec::new();
    let mut i: usize = 0;
    while i < n
        invariant
            i <= n,
            values(r@) == Seq::new(i as nat, |j: int| v@),
            r@.len() == i,
        decreases n - i,
    {
        let ghost old_r = r@;
        r.push(v);
        proof {
            assert(values(r@) =~= values(old_r).push(v@));
            assert(values(r@) =~= Seq::new((i + 1) as nat, |j: int| v@));
        }
        i = i + 1;
    }
    r
}

/// The products `M_j z` of all matrices.
pub open spec fn all_products<F: Field>(mats: Seq<(nat, nat, Seq<(int, int, int)>)>, z: Seq<int>) -> Seq<Seq<int>> {
    Seq::new(mats.len(), |j: int| mul_vec_spec::<F>(mats[j], z))
}

/// The entry-wise product of the vectors `mz[ms[0]], ..., mz[ms[k-1]]`,
/// starting from `len0` ones and cut to the shorter length at each step.
pub open spec fn hadamard<F: Field>(mz: Seq<Seq<int>>, ms: Seq<int>, len0: nat, k: nat) -> Seq<int>
    decreases k,
{
    if k == 0 {
        Seq::new(len0, |i: int| 1)
    } else {
        let p = hadamard::<F>(mz, ms, len0, (k - 1) as nat);
        let v = mz[ms[k - 1]];
        Seq::new(min_len(p.len(), v.len()), |i: int| F::vmul(p[i], v[i]))
    }
}

/// `sum_{i < k} c_i * hadamard_i`, starting from `n` zeros and cut to the
/// shorter length at each step.
pub open spec fn ccs_sum<F: Field>(mz: Seq<Seq<int>>, mss: Seq<Seq<int>>, cs: Seq<int>, n: nat, k: nat) -> Seq<int>
    decreases k,
{
    if k == 0 {
        Seq::new(n, |i: int| 0)
    } else {
        let a = ccs_sum::<F>(mz, mss, cs, n, (k - 1) as nat);
        let h = hadamard::<F>(mz, mss[k - 1], n, mss[k - 1].len());
        Seq::new(min_len(a.len(), h.len()), |i: int| F::vadd(a[i], F::vmul(cs[k - 1], h[i])))
    }
}

/// `prod_{j < k} mz[ms[j]][row]`.
pub open spec fn row_product<F: Field>(mz: Seq<Seq<int>>, ms: Seq<int>, row: int, k: nat) -> int
    decreases k,
{
    if k == 0 {
        1
    } else {
        F::vmul(row_product::<F>(mz, ms, row, (k - 1) as nat), mz[ms[k - 1]][row])
    }
}

/// `sum_{i < k} c_i * prod_{j in S_i} (M_j z)[row]`.
pub open spec fn row_sum<F: Field>(mz: Seq<Seq<int>>, mss: Seq<Seq<int>>, cs: Seq<int>, row: int, k: nat) -> int
    decreases k,
{
    if k == 0 {
        0
    } else {
        F::vadd(
            row_sum::<F>(mz, mss, cs, row, (k - 1) as nat),
            F::vmul(cs[k - 1], row_product::<F>(mz, mss[k - 1], row, mss[k - 1].len())),
        )
    }
}

/// A CCS instance: matrices, multisets of matrix indices and coefficients.
#[derive(Debug)]
pub struct CcsInstance<F: Field> {
    num_constraints: usize,
    num_variables: usize,
    matrices: Vec<SparseMatrix<F>>,
    multisets: Vec<Vec<usize>>,
    coefficients: Vec<F>,
}

/// The views of a list of matrices.
pub open spec fn matrix_views<F: Field>(ms: Seq<SparseMatrix<F>>) -> Seq<(nat, nat, Seq<(int, int, int)>)> {
    ms.map_values(|m: SparseMatrix<F>| m@)
}

/// A list of index lists as integers.
pub open spec fn index_lists(v: Seq<Vec<usize>>) -> Seq<Seq<int>> {
    v.map_values(|s: Vec<usize>| s@.map_values(|i: usize| i as int))
}

/// The view of a CCS instance.
pub struct CcsView {
    pub num_constraints: nat,
    pub num_variables: nat,
    pub matrices: Seq<(nat, nat, Seq<(int, int, int)>)>,
    pub multisets: Seq<Seq<int>>,
    pub coefficients: Seq<int>,
}

/// Every matrix accepts `z` and every multiset names a matrix.
pub open spec fn ccs_well_indexed(v: CcsView, z_len: nat) -> bool {
    &&& forall|j: int| 0 <= j < v.matrices.len() ==> entries_in_range(#[trigger] v.matrices[j], z_len)
    &&& forall|i: int, j: int|
        0 <= i < v.multisets.len() && 0 <= j < v.multisets[i].len() ==> 0 <= #[trigger] v.multisets[i][j]
            < v.matrices.len()
}

/// The constraint vector `sum_i c_i * hadamard_{j in S_i} (M_j z)`.
pub open spec fn ccs_residual<F: Field>(v: CcsView, z: Seq<int>) -> Seq<int> {
    ccs_sum::<F>(
        all_products::<F>(v.matrices, z),
        v.multisets,
        v.coefficients,
        v.num_constraints,
        v.multisets.len(),
    )
}

impl<F: Field> View for CcsInstance<F> {
    type V = CcsView;

    closed spec fn view(&self) -> CcsView {
        CcsView {
            num_constraints: self.num_constraints as nat,
            num_variables: self.num_variables as nat,
            matrices: matrix_views(self.matrices@),
            multisets: index_lists(self.multisets@),
            coefficients: values(self.coefficients@),
        }
    }
}

/// `a[i] + c * h[i]` over the common prefix.
fn accumulate<F: Field>(a: &Vec<F>, c: F, h: &Vec<F>) -> (r: Vec<F>)
    ensures
        values(r@) == Seq::new(
            min_len(a@.len(), h@.len()),
            |i: int| F::vadd(values(a@)[i], F::vmul(c@, values(h@)[i])),
        ),
{
    let n = if a.len() <= h.len() {
        a.len()
    } else {
        h.len()
    };
    let ghost target = Seq::new(
        min_len(a@.len(), h@.len()),
        |i: int| F::vadd(values(a@)[i], F::vmul(c@, values(h@)[i])),
    );
    let mut r: Vec<F> = Vec::new();
    let mut i: usize = 0;
    while i < n
        invariant
            n == min_len(a@.len(), h@.len()),
            target == Seq::new(
                min_len(a@.len(), h@.len()),
                |j: int| F::vadd(values(a@)[j], F::vmul(c@, values(h@)[j])),
            ),
            i <= n,
            values(r@) == target.subrange(0, i as int),
        decreases n - i,
    {
        let v = a[i].add(c.mul(h[i]));
        let ghost old_r = r@;
        r.push(v);
        proof {
            assert(values(r@) =~= values(old_r).push(v@));
            assert(target.subrange(0, i + 1) =~= target.subrange(0, i as int).push(target[i as int]));
        }
        i = i + 1;
    }
    proof {
        assert(values(r@) =~= target);
    }
    r
}

/// `p[i] * v[i]` over the common prefix.
fn entrywise_product<F: Field>(p: &Vec<F>, v: &Vec<F>) -> (r: Vec<F>)
    ensures
        values(r@) == Seq::new(min_len(p@.len(), v@.len()), |i: int| F::vmul(values(p@)[i], values(v@)[i])),
{
    let n = if p.len() <= v.len() {
        p.len()
    } else {
        v.len()
    };
    let ghost target = Seq::new(min_len(p@.len(), v@.len()), |i: int| F::vmul(values(p@)[i], values(v@)[i]));
    let mut r: Vec<F> = Vec::new();
    let mut i: usize = 0;
    while i < n
        invariant
            n == min_len(p@.len(), v@.len()),
            target == Seq::new(min_len(p@.len(), v@.len()), |j: int| F::vmul(values(p@)[j], values(v@)[j])),
            i <= n,
            values(r@) == target.subrange(0, i as int),
        decreases n - i,
    {
        let x = p[i].mul(v[i]);
        let ghost old_r = r@;
        r.push(x);
        proof {
            assert(values(r@) =~= values(old_r).push(x@));
            assert(target.subrange(0, i + 1) =~= target.subrange(0, i as int).push(target[i as int]));
        }
        i = i + 1;
    }
    proof {
        assert(values(r@) =~= target);
    }
    r
}

impl<F: Field> CcsInstance<F> {
    #[verifier::type_invariant]
    closed spec fn paired(self) -> bool {
        self.multisets@.len() == self.coefficients@.len()
    }

    /// Requires one coefficient per multiset.
    pub fn new(
        num_constraints: usize,
        num_variables: usize,
        matrices: Vec<SparseMatrix<F>>,
        multisets: Vec<Vec<usize>>,
        coefficients: Vec<F>,
    ) -> (r: Result<Self, Error>)
        ensures
            multisets@.len() != coefficients@.len() ==> r == Err::<Self, Error>(
                Error::ColumnLengthMismatch {
                    expected: multisets@.len() as usize,
                    got: coefficients@.len() as usize,
                },
            ),
            multisets@.len() == coefficients@.len() ==> r is Ok && r->Ok_0@ == (CcsView {
                num_constraints: num_constraints as nat,
                num_variables: num_variables as nat,
                matrices: matrix_views(matrices@),
                multisets: index_lists(multisets@),
                coefficients: values(coefficients@),
            }),
    {
        if multisets.len() != coefficients.len() {
            Err(Error::ColumnLengthMismatch { expected: multisets.len(), got: coefficients.len() })
        } else {
            Ok(Self { num_constraints, num_variables, matrices, multisets, coefficients })
        }
    }

    pub fn num_constraints(&self) -> (r: usize)
        ensures
            r == self@.num_constraints,
    {
        self.num_constraints
    }

    pub fn num_variables(&self) -> (r: usize)
        ensures
            r == self@.num_variables,
    {
        self.num_variables
    }

    fn products(&self, z: &[F]) -> (r: Vec<Vec<F>>)
        requires
            ccs_well_indexed(self@, z@.len()),
        ensures
            r@.map_values(|v: Vec<F>| values(v@)) == all_products::<F>(self@.matrices, values(z@)),
    {
        let ghost target = all_products::<F>(self@.matrices, values(z@));
        let mut mz: Vec<Vec<F>> = Vec::new();
        let mut j: usize = 0;
        while j < self.matrices.len()
            invariant
                ccs_well_indexed(self@, z@.len()),
                target == all_products::<F>(self@.matrices, values(z@)),
                j <= self.matrices@.len(),
                mz@.len() == j,
                forall|k: int| 0 <= k < j ==> #[trigger] values(mz@[k]@) == target[k],
            decreases self.matrices@.len() - j,
        {
            assert(self@.matrices[j as int] == self.matrices@[j as int]@);
            assert(entries_in_range(self@.matrices[j as int], z@.len()));
            let v = self.matrices[j].mul_vec(z);
            mz.push(v);
            j = j + 1;
        }
        proof {
            assert(mz@.map_values(|v: Vec<F>| values(v@)) =~= target);
        }
        mz
    }

    /// Whether `z` satisfies every constraint: the residual vector is zero.
    pub fn is_satisfied(&self, z: &[F]) -> (r: bool)
        requires
            ccs_well_indexed(self@, z@.len()),
        ensures
            r == (forall|i: int| 0 <= i < ccs_residual::<F>(self@, values(z@)).len() ==> #[trigger] ccs_residual::<
                F,
            >(self@, values(z@))[i] == 0),
    {
        proof {
            use_type_invariant(self);
        }
        let mz = self.products(z);
        let ghost mzv = mz@.map_values(|v: Vec<F>| values(v@));
        let ghost v = self@;
        let mut acc = filled(F::zero(), self.num_constraints);
        let mut i: usize = 0;
        while i < self.multisets.len()
            invariant
                v == self@,
                mzv == mz@.map_values(|w: Vec<F>| values(w@)),
                mzv == all_products::<F>(v.matrices, values(z@)),
                ccs_well_indexed(v, z@.len()),
                self.multisets@.len() == self.coefficients@.len(),
                i <= self.multisets@.len(),
                values(acc@) == ccs_sum::<F>(mzv, v.multisets, v.coefficients, v.num_constraints, i as nat),
            decreases self.multisets@.len() - i,
        {
            let ms = &self.multisets[i];
            let ghost msv = v.multisets[i as int];
            assert(msv == ms@.map_values(|x: usize| x as int));
            let mut had = filled(F::one(), self.num_constraints);
            let mut j: usize = 0;
            while j < ms.len()
                invariant
                    mzv == mz@.map_values(|w: Vec<F>| values(w@)),
                    mzv.len() == v.matrices.len(),
                    msv == ms@.map_values(|x: usize| x as int),
                    ccs_well_indexed(v, z@.len()),
                    0 <= i < v.multisets.len(),
                    msv == v.multisets[i as int],
                    j <= ms@.len(),
                    values(had@) == hadamard::<F>(mzv, msv, v.num_constraints, j as nat),
                decreases ms@.len() - j,
            {
                let idx = ms[j];
                assert(msv[j as int] == idx as int);
                assert(0 <= v.multisets[i as int][j as int] < v.matrices.len());
                assert(values(mz@[idx as int]@) == mzv[idx as int]);
                had = entrywise_product(&had, &mz[idx]);
                j = j + 1;
            }
            assert(v.coefficients[i as int] == self.coefficients@[i as int]@);
            acc = accumulate(&acc, self.coefficients[i], &had);
            i = i + 1;
        }
        let ghost res = ccs_residual::<F>(self@, values(z@));
        assert(values(acc@) == res);
        let mut k: usize = 0;
        while k < acc.len()
            invariant
                res == values(acc@),
                res == ccs_residual::<F>(self@, values(z@)),
                k <= acc@.len(),
                forall|m: int| 0 <= m < k ==> #[trigger] res[m] == 0,
            decreases acc@.len() - k,
        {
            assert(res[k as int] == acc@[k as int]@);
            if !acc[k].equals(F::zero()) {
                assert(ccs_residual::<F>(self@, values(z@))[k as int] != 0);
                return false;
            }
            k = k + 1;
        }
        true
    }

    /// The constraint's value at every row, as a multilinear polynomial over
    /// the row index; the number of variables is the number of trailing
    /// zero bits of the number of constraints.
    pub fn constraint_poly(&self, z: &[F]) -> (r: Result<MultilinearPoly<F>, Error>)
        requires
            self@.num_constraints > 0,
            ccs_well_indexed(self@, z@.len()),
            forall|i: int, j: int|
                0 <= i < self@.multisets.len() && 0 <= j < self@.multisets[i].len()
                    ==> self@.matrices[#[trigger] self@.multisets[i][j]].0 >= self@.num_constraints,
        ensures
            ({
                let k = trailing_zeros_spec(self@.num_constraints);
                let evals = Seq::new(
                    self@.num_constraints,
                    |row: int|
                        row_sum::<F>(
                            all_products::<F>(self@.matrices, values(z@)),
                            self@.multisets,
                            self@.coefficients,
                            row,
                            self@.multisets.len(),
                        ),
                );
                &&& self@.num_constraints != pow2(k) ==> r == Err::<MultilinearPoly<F>, Error>(
                    Error::PolyError(
                        crate::poly::Error::EvaluationDimensionMismatch {
                            expected: pow2(k) as usize,
                            got: self@.num_constraints as usize,
                        },
                    ),
                )
                &&& self@.num_constraints == pow2(k) ==> r is Ok && r->Ok_0@ == (k, evals)
            }),
    {
        proof {
            use_type_invariant(self);
        }
        let mz = self.products(z);
        let ghost mzv = mz@.map_values(|w: Vec<F>| values(w@));
        let ghost v = self@;
        let ghost target = Seq::new(
            v.num_constraints,
            |row: int| row_sum::<F>(mzv, v.multisets, v.coefficients, row, v.multisets.len()),
        );
        assert(mzv.len() == mz@.len());
        assert(mzv.len() == v.matrices.len());
        assert forall|q: int| 0 <= q < mz@.len() implies #[trigger] values(mz@[q]@) == mzv[q] by {
        }
        let mut evals: Vec<F> = Vec::new();
        let mut row: usize = 0;
        while row < self.num_constraints
            invariant
                v == self@,
                mzv == mz@.map_values(|w: Vec<F>| values(w@)),
                mzv == all_products::<F>(v.matrices, values(z@)),
                ccs_well_indexed(v, z@.len()),
                forall|i: int, j: int|
                    0 <= i < v.multisets.len() && 0 <= j < v.multisets[i].len() ==> v.matrices[#[trigger] v.multisets[i][j]].0
                        >= v.num_constraints,
                self.multisets@.len() == self.coefficients@.len(),
                target == Seq::new(
                    v.num_constraints,
                    |r2: int| row_sum::<F>(mzv, v.multisets, v.coefficients, r2, v.multisets.len()),
                ),
                row <= v.num_constraints,
                mz@.len() == v.matrices.len(),
                forall|q: int| 0 <= q < mz@.len() ==> #[trigger] values(mz@[q]@) == mzv[q],
                values(evals@) == target.subrange(0, row as int),
            decreases v.num_constraints - row,
        {
            let mut acc = F::zero();
            let mut i: usize = 0;
            while i < self.multisets.len()
                invariant
                    v == self@,
                    mzv == mz@.map_values(|w: Vec<F>| values(w@)),
                    mzv == all_products::<F>(v.matrices, values(z@)),
                    ccs_well_indexed(v, z@.len()),
                    forall|i2: int, j: int|
                        0 <= i2 < v.multisets.len() && 0 <= j < v.multisets[i2].len() ==> v.matrices[#[trigger] v.multisets[i2][j]].0
                            >= v.num_constraints,
                    self.multisets@.len() == self.coefficients@.len(),
                    row < v.num_constraints,
                    mz@.len() == v.matrices.len(),
                    forall|q: int| 0 <= q < mz@.len() ==> #[trigger] values(mz@[q]@) == mzv[q],
                    i <= self.multisets@.len(),
                    acc@ == row_sum::<F>(mzv, v.multisets, v.coefficients, row as int, i as nat),
                decreases self.multisets@.len() - i,
            {
                let ms = &self.multisets[i];
                let ghost msv = v.multisets[i as int];
                assert(msv == ms@.map_values(|x: usize| x as int));
                let mut prod = F::one();
                let mut j: usize = 0;
                while j < ms.len()
                    invariant
                        mzv == mz@.map_values(|w: Vec<F>| values(w@)),
                        mzv == all_products::<F>(v.matrices, values(z@)),
                        msv == ms@.map_values(|x: usize| x as int),
                        ccs_well_indexed(v, z@.len()),
                        forall|i2: int, j2: int|
                            0 <= i2 < v.multisets.len() && 0 <= j2 < v.multisets[i2].len() ==> v.matrices[#[trigger] v.multisets[i2][j2]].0
                                >= v.num_constraints,
                        0 <= i < v.multisets.len(),
                        msv == v.multisets[i as int],
                        mz@.len() == v.matrices.len(),
                        forall|q: int| 0 <= q < mz@.len() ==> #[trigger] values(mz@[q]@) == mzv[q],
                        row < v.num_constraints,
                        j <= ms@.len(),
                        prod@ == row_product::<F>(mzv, msv, row as int, j as nat),
                    decreases ms@.len() - j,
                {
                    let idx = ms[j];
                    assert(msv[j as int] == idx as int);
                    assert(0 <= v.multisets[i as int][j as int] < v.matrices.len());
                    assert(v.matrices[v.multisets[i as int][j as int]].0 >= v.num_constraints);
                    assert(mzv[idx as int] == mul_vec_spec::<F>(v.matrices[idx as int], values(z@)));
                    proof {
                        assert(entries_in_range(v.matrices[idx as int], z@.len()));
                        lemma_mul_vec_len::<F>(v.matrices[idx as int], values(z@), v.matrices[idx as int].2.len());
                    }
                    assert(values(mz@[idx as int]@) == mzv[idx as int]);
                    prod = prod.mul(mz[idx][row]);
                    j = j + 1;
                }
                assert(v.coefficients[i as int] == self.coefficients@[i as int]@);
                acc = acc.add(self.coefficients[i].mul(prod));
                i = i + 1;
            }
            let ghost old_e = evals@;
            evals.push(acc);
            proof {
                assert(values(evals@) =~= values(old_e).push(acc@));
                assert(target.subrange(0, row + 1) =~= target.subrange(0, row as int).push(target[row as int]));
            }
            row = row + 1;
        }
        proof {
            assert(values(evals@) =~= target);
        }
        let log_n = trailing_zeros(self.num_constraints);
        match MultilinearPoly::from_evals(log_n as usize, evals) {
            Ok(p) => Ok(p),
            Err(e) => Err(Error::from(e)),
        }
    }
}

/// `M z` has one entry per row of `M`.
pub proof fn lemma_mul_vec_len<F: Field>(m: (nat, nat, Seq<(int, int, int)>), z: Seq<int>, k: nat)
    requires
        entries_in_range(m, z.len()),
        k <= m.2.len(),
    ensures
        mul_vec_prefix::<F>(m, z, k).len() == m.0,
    decreases k,
{
    if k > 0 {
        lemma_mul_vec_len::<F>(m, z, (k - 1) as nat);
    }
}

proof fn lemma_hadamard_rows<F: Field>(mz: Seq<Seq<int>>, ms: Seq<int>, n: nat, j: nat)
    requires
        j <= ms.len(),
        forall|q: int| 0 <= q < ms.len() ==> 0 <= #[trigger] ms[q] < mz.len() && mz[ms[q]].len() >= n,
    ensures
        hadamard::<F>(mz, ms, n, j).len() == n,
        forall|i: int| 0 <= i < n ==> #[trigger] hadamard::<F>(mz, ms, n, j)[i] == row_product::<F>(mz, ms, i, j),
    decreases j,
{
    if j > 0 {
        lemma_hadamard_rows::<F>(mz, ms, n, (j - 1) as nat);
        assert(0 <= ms[j - 1] < mz.len() && mz[ms[j - 1]].len() >= n);
    }
}

proof fn lemma_sum_rows<F: Field>(mz: Seq<Seq<int>>, mss: Seq<Seq<int>>, cs: Seq<int>, n: nat, k: nat)
    requires
        k <= mss.len(),
        forall|p: int, q: int|
            0 <= p < mss.len() && 0 <= q < mss[p].len() ==> 0 <= #[trigger] mss[p][q] < mz.len() && mz[mss[p][q]].len() >= n,
    ensures
        ccs_sum::<F>(mz, mss, cs, n, k).len() == n,
        forall|i: int| 0 <= i < n ==> #[trigger] ccs_sum::<F>(mz, mss, cs, n, k)[i] == row_sum::<F>(mz, mss, cs, i, k),
    decreases k,
{
    if k > 0 {
        lemma_sum_rows::<F>(mz, mss, cs, n, (k - 1) as nat);
        let ms = mss[k - 1];
        assert forall|q: int| 0 <= q < ms.len() implies 0 <= #[trigger] ms[q] < mz.len() && mz[ms[q]].len() >= n by {
            assert(0 <= mss[k - 1][q] < mz.len() && mz[mss[k - 1][q]].len() >= n);
        }
        lemma_hadamard_rows::<F>(mz, ms, n, ms.len());
    }
}

/// When every matrix that a multiset names has at least `num_constraints`
/// rows, the residual that `is_satisfied` checks is, row by row, the table of
/// `constraint_poly`: `z` satisfies the instance exactly when that table is
/// all zero.
pub proof fn lemma_residual_is_constraint_table<F: Field>(v: CcsView, z: Seq<int>)
    requires
        ccs_well_indexed(v, z.len()),
        forall|i: int, j: int|
            0 <= i < v.multisets.len() && 0 <= j < v.multisets[i].len() ==> v.matrices[#[trigger] v.multisets[i][j]].0
                >= v.num_constraints,
    ensures
        ccs_residual::<F>(v, z).len() == v.num_constraints,
        forall|row: int|
            0 <= row < v.num_constraints ==> #[trigger] ccs_residual::<F>(v, z)[row] == row_sum::<F>(
                all_products::<F>(v.matrices, z),
                v.multisets,
                v.coefficients,
                row,
                v.multisets.len(),
            ),
        (forall|i: int| 0 <= i < ccs_residual::<F>(v, z).len() ==> #[trigger] ccs_residual::<F>(v, z)[i] == 0)
            <==> (forall|row: int|
            0 <= row < v.num_constraints ==> #[trigger] row_sum::<F>(
                all_products::<F>(v.matrices, z),
                v.multisets,
                v.coefficients,
                row,
                v.multisets.len(),
            ) == 0),
{
    let mz = all_products::<F>(v.matrices, z);
    assert forall|p: int, q: int|
        0 <= p < v.multisets.len() && 0 <= q < v.multisets[p].len() implies 0 <= #[trigger] v.multisets[p][q]
        < mz.len() && mz[v.multisets[p][q]].len() >= v.num_constraints by {
        let idx = v.multisets[p][q];
        assert(0 <= idx < v.matrices.len());
        assert(v.matrices[idx].0 >= v.num_constraints);
        lemma_mul_vec_len::<F>(v.matrices[idx], z, v.matrices[idx].2.len());
    }
    lemma_sum_rows::<F>(mz, v.multisets, v.coefficients, v.num_constraints, v.multisets.len());
    let res = ccs_residual::<F>(v, z);
    if forall|row: int|
        0 <= row < v.num_constraints ==> #[trigger] row_sum::<F>(mz, v.multisets, v.coefficients, row, v.multisets.len())
            == 0 {
        assert forall|i: int| 0 <= i < res.len() implies #[trigger] res[i] == 0 by {
            assert(row_sum::<F>(mz, v.multisets, v.coefficients, i, v.multisets.len()) == 0);
        }
    }
    if forall|i: int| 0 <= i < res.len() ==> #[trigger] res[i] == 0 {
        assert forall|row: int| 0 <= row < v.num_constraints implies #[trigger] row_sum::<F>(
            mz,
            v.multisets,
            v.coefficients,
            row,
            v.multisets.len(),
        ) == 0 by {
            assert(res[row] == 0);
        }
    }
}

} // verus!
