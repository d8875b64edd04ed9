//! Radix-2 number-theoretic transforms, and evaluation over the circle group.

use vstd::prelude::*;
use vstd::arithmetic::power2::is_pow2;

use crate::field::{lemma_pow_in_field, lemma_values_in_field, in_field, values, vpow, Field};
use crate::util::is_power_of_two;


pub mod circle;
pub mod error;
pub mod inverse;
pub mod laws;


pub use self::circle::{circle_evaluate, CirclePoint};
pub use self::error::Error;

verus! {

pub open spec fn evens(c: Seq<int>) -> Seq<int> {
    Seq::new((c.len() + 1) / 2, |i: int| c[2 * i])
}

pub open spec fn odds(c: Seq<int>) -> Seq<int> {
    Seq::new(c.len() / 2, |i: int| c[2 * i + 1])
}

/// The radix-2 decimation-in-time transform of `c` with root `w`: the
/// transforms of the even and odd halves with `w^2`, combined by the
/// butterflies `e_k + w^k o_k` and `e_k - w^k o_k`.
pub open spec fn ntt_spec<F: Field>(c: Seq<int>, w: int) -> Seq<int>
    decreases c.len(),
{
    if c.len() <= 1 {
        c
    } else {
        let half = c.len() / 2;
        let e = ntt_spec::<F>(evens(c), F::vmul(w, w));
        let o = ntt_spec::<F>(odds(c), F::vmul(w, w));
        Seq::new(
            (2 * half) as nat,
            |k: int|
                if k < half {
                    F::vadd(e[k], F::vmul(vpow::<F>(w, k as nat), o[k]))
                } else {
                    F::vsub(e[k - half], F::vmul(vpow::<F>(w, (k - half) as nat), o[k - half]))
                },
        )
    }
}

/// Evaluates the polynomial with coefficients `coeffs` at all powers of
/// `omega`.  The length must be a power of two; when `omega` is a principal
/// root of unity of that order the result is `[P(omega^0), P(omega^1), ...]`.
pub fn ntt<F: Field>(coeffs: &[F], omega: F) -> (r: Result<Vec<F>, Error>)
    ensures
        coeffs@.len() == 0 ==> r == Err::<Vec<F>, Error>(Error::EmptyInput),
        coeffs@.len() > 0 && !is_pow2(coeffs@.len() as int) ==> r == Err::<Vec<F>, Error>(
            Error::LengthNotPowerOfTwo { len: coeffs@.len() as usize },
        ),
        coeffs@.len() > 0 && is_pow2(coeffs@.len() as int) ==> r is Ok && values(r->Ok_0@)
            == ntt_spec::<F>(values(coeffs@), omega@),
{
    if coeffs.len() == 0 {
        Err(Error::EmptyInput)
    } else if !is_power_of_two(coeffs.len()) {
        Err(Error::LengthNotPowerOfTwo { len: coeffs.len() })
    } else {
        Ok(ntt_inner(coeffs, omega))
    }
}

fn split_even_odd<F: Field>(coeffs: &[F]) -> (r: (Vec<F>, Vec<F>))
    ensures
        values(r.0@) == evens(values(coeffs@)),
        values(r.1@) == odds(values(coeffs@)),
{
    let mut ev: Vec<F> = Vec::new();
    let mut od: Vec<F> = Vec::new();
    let ghost c = values(coeffs@);
    let mut i: usize = 0;
    while i < coeffs.len()
        invariant
            i <= coeffs@.len(),
            c == values(coeffs@),
            values(ev@) == evens(c.subrange(0, i as int)),
            values(od@) == odds(c.subrange(0, i as int)),
        decreases coeffs@.len() - i,
    {
        let ghost old_ev = ev@;
        let ghost old_od = od@;
        if i % 2 == 0 {
            ev.push(coeffs[i]);
            proof {
                assert(values(ev@) =~= values(old_ev).push(coeffs@[i as int]@));
                assert(evens(c.subrange(0, i + 1)) =~= evens(c.subrange(0, i as int)).push(c[i as int]));
                assert(odds(c.subrange(0, i + 1)) =~= odds(c.subrange(0, i as int)));
            }
        } else {
            od.push(coeffs[i]);
            proof {
                assert(values(od@) =~= values(old_od).push(coeffs@[i as int]@));
                assert(odds(c.subrange(0, i + 1)) =~= odds(c.subrange(0, i as int)).push(c[i as int]));
                assert(evens(c.subrange(0, i + 1)) =~= evens(c.subrange(0, i as int)));
            }
        }
        i = i + 1;
    }
    proof {
        assert(c.subrange(0, i as int) =~= c);
    }
    (ev, od)
}

/// The powers `1, w, w^2, ...` of `w`, `n` of them.
fn twiddles<F: Field>(w: F, n: usize) -> (r: Vec<F>)
    ensures
        r@.len() == n,
        forall|i: int| 0 <= i < n ==> #[trigger] r@[i]@ == vpow::<F>(w@, i as nat),
{
    let mut r: Vec<F> = Vec::new();
    if n == 0 {
        return r;
    }
    let mut cur = F::one();
    proof {
        F::lemma_pow_unfold(w@, 0);
        F::lemma_value_in_field(w);
    }
    let mut i: usize = 0;
    while i < n
        invariant
            i <= n,
            r@.len() == i,
            in_field::<F>(w@),
            cur@ == vpow::<F>(w@, i as nat),
            forall|j: int| 0 <= j < i ==> #[trigger] r@[j]@ == vpow::<F>(w@, j as nat),
        decreases n - i,
    {
        r.push(cur);
        proof {
            lemma_pow_in_field::<F>(w@, i as nat);
            F::lemma_pow_unfold(w@, (i + 1) as nat);
            F::lemma_mul_laws(cur@, w@, 0);
        }
        cur = cur.mul(w);
        i = i + 1;
    }
    r
}

fn ntt_inner<F: Field>(coeffs: &[F], omega: F) -> (r: Vec<F>)
    requires
        is_pow2(coeffs@.len() as int),
    ensures
        values(r@) == ntt_spec::<F>(values(coeffs@), omega@),
    decreases coeffs@.len(),
{
    reveal(is_pow2);
    let ghost c = values(coeffs@);
    if coeffs.len() == 1 {
        let r = vec![coeffs[0]];
        proof {
            assert(values(r@) =~= c);
        }
        return r;
    }
    let (ev, od) = split_even_odd(coeffs);
    proof {
        assert(coeffs@.len() % 2 == 0 && is_pow2(coeffs@.len() as int / 2));
        assert(values(ev@).len() == ev@.len());
        assert(values(od@).len() == od@.len());
        assert(ev@.len() == coeffs@.len() / 2);
        assert(od@.len() == coeffs@.len() / 2);
    }
    let omega_sq = omega.square();
    let ev_ntt = ntt_inner(ev.as_slice(), omega_sq);
    let od_ntt = ntt_inner(od.as_slice(), omega_sq);
    let half = coeffs.len() / 2;
    let tw = twiddles(omega, half);
    let ghost e = values(ev_ntt@);
    let ghost o = values(od_ntt@);
    let ghost target = ntt_spec::<F>(c, omega@);
    proof {
        assert(evens(c).len() == half);
    }
    let mut out: Vec<F> = Vec::new();
    let mut i: usize = 0;
    while i < half
        invariant
            half == coeffs@.len() / 2,
            half >= 1,
            e.len() == half,
            o.len() == half,
            tw@.len() == half,
            e == values(ev_ntt@),
            o == values(od_ntt@),
            e == ntt_spec::<F>(evens(c), F::vmul(omega@, omega@)),
            o == ntt_spec::<F>(odds(c), F::vmul(omega@, omega@)),
            forall|j: int| 0 <= j < half ==> #[trigger] tw@[j]@ == vpow::<F>(omega@, j as nat),
            i <= half,
            out@.len() == i,
            forall|j: int| 0 <= j < i ==> #[trigger] out@[j]@ == F::vadd(
                e[j],
                F::vmul(vpow::<F>(omega@, j as nat), o[j]),
            ),
        decreases half - i,
    {
        out.push(ev_ntt[i].add(tw[i].mul(od_ntt[i])));
        i = i + 1;
    }
    let mut i: usize = 0;
    while i < half
        invariant
            half == coeffs@.len() / 2,
            e.len() == half,
            o.len() == half,
            tw@.len() == half,
            e == values(ev_ntt@),
            o == values(od_ntt@),
            forall|j: int| 0 <= j < half ==> #[trigger] tw@[j]@ == vpow::<F>(omega@, j as nat),
            i <= half,
            out@.len() == half + i,
            forall|j: int| 0 <= j < half ==> #[trigger] out@[j]@ == F::vadd(
                e[j],
                F::vmul(vpow::<F>(omega@, j as nat), o[j]),
            ),
            forall|j: int| half <= j < half + i ==> #[trigger] out@[j]@ == F::vsub(
                e[j - half],
                F::vmul(vpow::<F>(omega@, (j - half) as nat), o[j - half]),
            ),
        decreases half - i,
    {
        out.push(ev_ntt[i].sub(tw[i].mul(od_ntt[i])));
        i = i + 1;
    }
    proof {
        assert(values(out@) =~= target);
    }
    out
}

/// Inverse transform: the transform with `omega_inv`, scaled by `n_inv`.
pub fn intt<F: Field>(evals: &[F], omega_inv: F, n_inv: F) -> (r: Result<Vec<F>, Error>)
    ensures
        evals@.len() == 0 ==> r == Err::<Vec<F>, Error>(Error::EmptyInput),
        evals@.len() > 0 && !is_pow2(evals@.len() as int) ==> r == Err::<Vec<F>, Error>(
            Error::LengthNotPowerOfTwo { len: evals@.len() as usize },
        ),
        evals@.len() > 0 && is_pow2(evals@.len() as int) ==> r is Ok && r->Ok_0@.len() == evals@.len()
            && forall|k: int|
            0 <= k < evals@.len() ==> #[trigger] r->Ok_0@[k]@ == F::vmul(
                ntt_spec::<F>(values(evals@), omega_inv@)[k],
                n_inv@,
            ),
{
    if evals.len() == 0 {
        return Err(Error::EmptyInput);
    }
    if !is_power_of_two(evals.len()) {
        return Err(Error::LengthNotPowerOfTwo { len: evals.len() });
    }
    let raw = ntt_inner(evals, omega_inv);
    proof {
        lemma_ntt_len::<F>(values(evals@), omega_inv@);
    }
    let mut out: Vec<F> = Vec::new();
    let mut i: usize = 0;
    while i < raw.len()
        invariant
            i <= raw@.len(),
            out@.len() == i,
            forall|j: int| 0 <= j < i ==> #[trigger] out@[j]@ == F::vmul(raw@[j]@, n_inv@),
        decreases raw@.len() - i,
    {
        out.push(raw[i].mul(n_inv));
        i = i + 1;
    }
    Ok(out)
}

pub proof fn lemma_ntt_len<F: Field>(c: Seq<int>, w: int)
    requires
        is_pow2(c.len() as int),
    ensures
        ntt_spec::<F>(c, w).len() == c.len(),
    decreases c.len(),
{
    reveal(is_pow2);
    if c.len() > 1 {
        lemma_ntt_len::<F>(evens(c), F::vmul(w, w));
    }
}

} // verus!
