//! Arithmetic on small integer points of a field: embedding `0, 1, 2, ...`,
//! the line through two values, and Lagrange interpolation on `0, ..., d-1`.

use vstd::prelude::*;

use crate::field::{of_nat, values, Field};

verus! {

/// The value at `t` of the line through `(0, e0)` and `(1, e1)`:
/// `e0 + (e1 - e0) * t`.
pub open spec fn line_at<F: Field>(e0: int, e1: int, t: nat) -> int {
    F::vadd(e0, F::vmul(F::vsub(e1, e0), of_nat::<F>(t)))
}

/// The inverse of `x`, `x^inv_exponent()`, with one in place of the inverse
/// of zero.
pub open spec fn inv_or_one<F: Field>(x: int) -> int {
    if x == 0 {
        1
    } else {
        F::vpow(x, F::inv_exponent())
    }
}

/// `prod_{j < m, j != i} (point - j) / (i - j)`, multiplied from the front.
pub open spec fn basis_prefix<F: Field>(point: int, i: nat, m: nat) -> int
    decreases m,
{
    if m == 0 {
        1
    } else {
        let prev = basis_prefix::<F>(point, i, (m - 1) as nat);
        let j = (m - 1) as nat;
        if j == i {
            prev
        } else {
            F::vmul(
                F::vmul(prev, F::vsub(point, of_nat::<F>(j))),
                inv_or_one::<F>(F::vsub(of_nat::<F>(i), of_nat::<F>(j))),
            )
        }
    }
}

/// `sum_{i < m} e[i] * L_i(point)`, the Lagrange basis polynomials taken on
/// the points `0, ..., e.len() - 1`.
pub open spec fn lagrange_prefix<F: Field>(e: Seq<int>, point: int, m: nat) -> int
    decreases m,
{
    if m == 0 {
        0
    } else {
        F::vadd(
            lagrange_prefix::<F>(e, point, (m - 1) as nat),
            F::vmul(e[m - 1], basis_prefix::<F>(point, (m - 1) as nat, e.len())),
        )
    }
}

/// The value at `point` of the polynomial of degree below `e.len()` that
/// takes the value `e[k]` at `k`.
pub open spec fn lagrange_value<F: Field>(e: Seq<int>, point: int) -> int {
    lagrange_prefix::<F>(e, point, e.len())
}


/// The element `n`, as `n` additions of one.
pub fn field_from_usize<F: Field>(n: usize) -> (r: F)
    ensures
        r@ == of_nat::<F>(n as nat),
{
    let mut acc = F::zero();
    let mut k: usize = 0;
    while k < n
        invariant
            k <= n,
            acc@ == of_nat::<F>(k as nat),
        decreases n - k,
    {
        acc = acc.add(F::one());
        k = k + 1;
    }
    acc
}

/// `e0 + (e1 - e0) * t`.
pub fn eval_at_point<F: Field>(e0: F, e1: F, t: usize) -> (r: F)
    ensures
        r@ == line_at::<F>(e0@, e1@, t as nat),
{
    let t_field = field_from_usize::<F>(t);
    e0.add(e1.sub(e0).mul(t_field))
}

fn inverse_or_one<F: Field>(x: F) -> (r: F)
    ensures
        r@ == inv_or_one::<F>(x@),
{
    match x.inv() {
        Ok(v) => v,
        Err(_) => F::one(),
    }
}

fn lagrange_basis<F: Field>(d: usize, i: usize, point: F) -> (r: F)
    ensures
        r@ == basis_prefix::<F>(point@, i as nat, d as nat),
{
    let mut basis = F::one();
    let mut j: usize = 0;
    while j < d
        invariant
            j <= d,
            basis@ == basis_prefix::<F>(point@, i as nat, j as nat),
        decreases d - j,
    {
        if j != i {
            let j_field = field_from_usize::<F>(j);
            let i_field = field_from_usize::<F>(i);
            let inv = inverse_or_one(i_field.sub(j_field));
            basis = basis.mul(point.sub(j_field)).mul(inv);
        }
        j = j + 1;
    }
    basis
}

/// The value at `point` of the polynomial of degree below `evals.len()`
/// through `(k, evals[k])`, by the Lagrange formula.
pub fn lagrange_interpolate<F: Field>(evals: &[F], point: F) -> (r: F)
    ensures
        r@ == lagrange_value::<F>(values(evals@), point@),
{
    let d = evals.len();
    let ghost e = values(evals@);
    let mut acc = F::zero();
    let mut i: usize = 0;
    while i < d
        invariant
            d == evals@.len(),
            e == values(evals@),
            i <= d,
            acc@ == lagrange_prefix::<F>(e, point@, i as nat),
        decreases d - i,
    {
        let basis = lagrange_basis(d, i, point);
        acc = acc.add(evals[i].mul(basis));
        i = i + 1;
    }
    acc
}

} // verus!
