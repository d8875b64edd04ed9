//! The inverse transform undoes the transform: polynomials as sums, the
//! geometric sums of a principal root of unity, and the inversion law.

use vstd::prelude::*;

use vstd::arithmetic::power2::{lemma2_to64, lemma_pow2_pos, lemma_pow2_unfold, pow2};

use crate::field::algebra::{lemma_mul_neg, lemma_neg_one_squared, lemma_pow_neg_one, lemma_pow_one};
use crate::field::{all_in_field, in_field, lemma_of_nat_in_field, lemma_pow_add, lemma_pow_in_field, of_nat, vpow, Field};
use crate::field::sums::{
    fsum, lemma_fsum_ext, lemma_fsum_in_field, lemma_fsum_ones, lemma_fsum_scale, lemma_fsum_single, lemma_fsum_split,
    lemma_fsum_swap,
};
use crate::poly::univariate::horner;
use super::ntt_spec;

verus! {

/// `x^(a * b) == (x^a)^b`.
pub proof fn lemma_pow_mul<F: Field>(x: int, a: nat, b: nat)
    requires
        in_field::<F>(x),
    ensures
        vpow::<F>(x, a * b) == vpow::<F>(vpow::<F>(x, a), b),
    decreases b,
{
    F::lemma_order();
    lemma_pow_in_field::<F>(x, a);
    F::lemma_pow_unfold(vpow::<F>(x, a), b);
    if b == 0 {
        F::lemma_pow_unfold(x, 0);
        assert(a * b == 0) by (nonlinear_arith)
            requires
                b == 0,
        ;
    } else {
        let b1 = (b - 1) as nat;
        lemma_pow_mul::<F>(x, a, b1);
        assert(a * b == a * b1 + a) by (nonlinear_arith)
            requires
                b1 == b - 1,
        ;
        lemma_pow_add::<F>(x, a * b1, a);
        lemma_pow_in_field::<F>(x, a * b1);
        F::lemma_mul_laws(vpow::<F>(x, a * b1), vpow::<F>(x, a), 0);
    }
}

/// Horner's rule computes `sum_j c[j] x^j`.
pub proof fn lemma_horner_is_sum<F: Field>(c: Seq<int>, x: int)
    requires
        all_in_field::<F>(c),
        in_field::<F>(x),
    ensures
        horner::<F>(c, x) == fsum::<F>(|j: int| F::vmul(c[j], vpow::<F>(x, j as nat)), c.len()),
    decreases c.len(),
{
    F::lemma_order();
    let n = c.len();
    let f = |j: int| F::vmul(c[j], vpow::<F>(x, j as nat));
    if n > 0 {
        let c1 = c.drop_first();
        assert forall|i: int| 0 <= i < c1.len() implies #[trigger] in_field::<F>(c1[i]) by {
            assert(in_field::<F>(c[i + 1]));
        }
        lemma_horner_is_sum::<F>(c1, x);
        let g = |j: int| F::vmul(c1[j], vpow::<F>(x, j as nat));
        assert forall|j: int| 0 <= j < n implies #[trigger] in_field::<F>(f(j)) by {
            assert(in_field::<F>(c[j]));
            lemma_pow_in_field::<F>(x, j as nat);
            F::lemma_closed(c[j], vpow::<F>(x, j as nat));
        }
        assert forall|j: int| 0 <= j < n - 1 implies #[trigger] in_field::<F>(g(j)) by {
            assert(in_field::<F>(c1[j]));
            lemma_pow_in_field::<F>(x, j as nat);
            F::lemma_closed(c1[j], vpow::<F>(x, j as nat));
        }
        let n1 = (n - 1) as nat;
        lemma_fsum_in_field::<F>(g, n1);
        // multiplying by x shifts the powers
        F::lemma_mul_laws(fsum::<F>(g, n1), x, 0);
        lemma_fsum_scale::<F>(x, g, n1);
        assert forall|j: int| 0 <= j < n1 implies #[trigger] F::vmul(x, g(j)) == f(1 + j) by {
            assert(in_field::<F>(c1[j]));
            lemma_pow_in_field::<F>(x, j as nat);
            F::lemma_mul_laws(x, c1[j], vpow::<F>(x, j as nat));
            F::lemma_mul_laws(c1[j], x, vpow::<F>(x, j as nat));
            F::lemma_pow_unfold(x, (j + 1) as nat);
            assert(c1[j] == c[1 + j]);
        }
        lemma_fsum_ext::<F>(|j: int| F::vmul(x, g(j)), |k: int| f(1 + k), n1);
        // split off the constant term
        lemma_fsum_split::<F>(f, 1, n1);
        assert(1 + n1 == n);
        F::lemma_pow_unfold(x, 0);
        assert(in_field::<F>(c[0]));
        F::lemma_mul_laws(c[0], 0, 0);
        F::lemma_add_laws(0, f(0), 0);
        F::lemma_add_laws(f(0), 0, 0);
        assert(f(0) == c[0]);
        assert(fsum::<F>(f, 0) == 0);
        assert(fsum::<F>(f, 1) == F::vadd(fsum::<F>(f, 0), f(0)));
        assert(fsum::<F>(f, 1) == f(0));
        lemma_fsum_in_field::<F>(|k: int| f(1 + k), n1);
        F::lemma_add_laws(fsum::<F>(|k: int| f(1 + k), n1), c[0], 0);
    }
}

/// The sum of the first `n = 2^m` powers of `w^d`, for `w` a principal root
/// of unity of order `n` (`w^(n/2) == -1`): `n` when `n` divides `d`, and
/// zero otherwise.
pub proof fn lemma_geometric<F: Field>(w: int, d: nat, m: nat)
    requires
        in_field::<F>(w),
        m > 0 ==> vpow::<F>(w, pow2((m - 1) as nat)) == F::vneg(1),
    ensures
        fsum::<F>(|k: int| vpow::<F>(vpow::<F>(w, d), k as nat), pow2(m)) == if d % pow2(m) == 0 {
            of_nat::<F>(pow2(m))
        } else {
            0
        },
    decreases m,
{
    F::lemma_order();
    let n = pow2(m);
    lemma_pow2_pos(m);
    let x = vpow::<F>(w, d);
    lemma_pow_in_field::<F>(w, d);
    let g = |k: int| vpow::<F>(x, k as nat);
    assert forall|k: int| 0 <= k < n implies #[trigger] in_field::<F>(g(k)) by {
        lemma_pow_in_field::<F>(x, k as nat);
    }
    if d % n == 0 {
        if m == 0 {
            lemma2_to64();
            F::lemma_pow_unfold(x, 0);
            lemma_fsum_ones::<F>(1);
            lemma_fsum_ext::<F>(g, |k: int| 1int, 1);
        } else {
            // w^n == 1, so x == 1
            let h = pow2((m - 1) as nat);
            lemma_pow2_unfold(m);
            lemma_pow_add::<F>(w, h, h);
            lemma_neg_one_squared::<F>();
            assert(vpow::<F>(w, n) == 1);
            vstd::arithmetic::div_mod::lemma_fundamental_div_mod(d as int, n as int);
            let q = (d / n) as nat;
            assert(d == n * q + 0);
            lemma_pow_mul::<F>(w, n, q);
            lemma_pow_one::<F>(q);
            assert(x == 1);
            assert forall|k: int| 0 <= k < n implies #[trigger] g(k) == (|k: int| 1int)(k) by {
                lemma_pow_one::<F>(k as nat);
            }
            lemma_fsum_ext::<F>(g, |k: int| 1int, n);
            lemma_fsum_ones::<F>(n);
        }
    } else {
        assert(m > 0) by {
            if m == 0 {
                lemma2_to64();
            }
        }
        let m1 = (m - 1) as nat;
        let h = pow2(m1);
        lemma_pow2_unfold(m);
        lemma_pow2_pos(m1);
        // split the sum in halves; the upper half is x^h times the lower
        lemma_fsum_split::<F>(g, h, h);
        let xh = vpow::<F>(x, h);
        lemma_pow_in_field::<F>(x, h);
        assert forall|k: int| 0 <= k < h implies #[trigger] g(h + k) == F::vmul(xh, g(k)) by {
            lemma_pow_add::<F>(x, h, k as nat);
        }
        lemma_fsum_ext::<F>(|k: int| g(h + k), |k: int| F::vmul(xh, g(k)), h);
        lemma_fsum_scale::<F>(xh, g, h);
        let big_g = fsum::<F>(g, h);
        lemma_fsum_in_field::<F>(g, h);
        // x^h == (w^h)^d == (-1)^d
        lemma_pow_mul::<F>(w, d, h);
        lemma_pow_mul::<F>(w, h, d);
        assert(d * h == h * d) by (nonlinear_arith);
        lemma_pow_neg_one::<F>(d);
        if d % 2 == 1 {
            assert(xh == F::vneg(1));
            F::lemma_mul_laws(xh, big_g, 0);
            lemma_mul_neg::<F>(big_g, 1);
            F::lemma_mul_laws(big_g, 1, 0);
            F::lemma_add_laws(big_g, 0, 0);
        } else {
            assert(xh == 1);
            F::lemma_mul_laws(big_g, 1, 0);
            F::lemma_mul_laws(1, big_g, 0);
            let d2 = (d / 2) as nat;
            assert(d == 2 * d2);
            let w2 = vpow::<F>(w, 2);
            lemma_pow_in_field::<F>(w, 2);
            lemma_pow_mul::<F>(w, 2, d2);
            if m1 > 0 {
                lemma_pow2_unfold(m1);
                lemma_pow_mul::<F>(w, 2, pow2((m1 - 1) as nat));
            }
            lemma_geometric::<F>(w2, d2, m1);
            // h does not divide d2, since n does not divide d
            assert(d2 % h != 0) by {
                if d2 % h == 0 {
                    vstd::arithmetic::div_mod::lemma_fundamental_div_mod(d2 as int, h as int);
                    let q = d2 / h;
                    assert(d == n * q) by (nonlinear_arith)
                        requires
                            d == 2 * d2,
                            d2 == h * q,
                            n == 2 * h,
                    ;
                    vstd::arithmetic::div_mod::lemma_mod_multiples_basic(q as int, n as int);
                    assert(q * n == n * q) by (nonlinear_arith);
                }
            }
            lemma_fsum_ext::<F>(g, |k: int| vpow::<F>(vpow::<F>(w2, d2), k as nat), h);
            F::lemma_add_laws(0, 0, 0);
        }
    }
}

/// One term of the double sum:
/// `((w^e)^i)^k * (c_j * (w^k)^j) == c_j * (w^(j + e i))^k`.
proof fn lemma_double_sum_term<F: Field>(cj: int, w: int, e: nat, i: nat, j: nat, k: nat)
    requires
        in_field::<F>(cj),
        in_field::<F>(w),
    ensures
        F::vmul(
            vpow::<F>(vpow::<F>(vpow::<F>(w, e), i), k),
            F::vmul(cj, vpow::<F>(vpow::<F>(w, k), j)),
        ) == F::vmul(cj, vpow::<F>(vpow::<F>(w, j + e * i), k)),
{
    F::lemma_order();
    lemma_pow_mul::<F>(w, e, i);
    lemma_pow_mul::<F>(w, e * i, k);
    lemma_pow_mul::<F>(w, k, j);
    lemma_pow_add::<F>(w, k * j, e * i * k);
    assert(k * j + e * i * k == (j + e * i) * k) by (nonlinear_arith);
    lemma_pow_mul::<F>(w, j + e * i, k);
    let a = vpow::<F>(w, e * i * k);
    let b = vpow::<F>(w, k * j);
    lemma_pow_in_field::<F>(w, e * i * k);
    lemma_pow_in_field::<F>(w, k * j);
    F::lemma_mul_laws(a, cj, b);
    F::lemma_mul_laws(cj, a, b);
    F::lemma_mul_laws(b, a, 0);
}

/// `j + (n - 1) i` is a multiple of `n` exactly when `j == i`, for `i, j < n`.
proof fn lemma_exponent_divisible(n: nat, i: nat, j: nat)
    requires
        0 <= i < n,
        0 <= j < n,
    ensures
        ((j + (n - 1) * i) as nat % n == 0) <==> (i == j),
{
    let d = j + (n - 1) * i;
    assert(d == n * i + (j - i)) by (nonlinear_arith)
        requires
            d == j + (n - 1) * i,
    ;
    vstd::arithmetic::div_mod::lemma_mod_multiples_vanish(i as int, j - i, n as int);
    if j >= i {
        vstd::arithmetic::div_mod::lemma_small_mod((j - i) as nat, n);
    } else {
        vstd::arithmetic::div_mod::lemma_mod_add_multiples_vanish(j - i, n as int);
        vstd::arithmetic::div_mod::lemma_small_mod((n + j - i) as nat, n);
    }
}

/// Entry `i` of the transform with `w^(n - 1)` applied to the transform with
/// `w`, written as sums, is `c_i * n`.
proof fn lemma_inverse_entry<F: Field>(c: Seq<int>, w: int, m: nat, i: nat)
    requires
        c.len() == pow2(m),
        m > 0,
        all_in_field::<F>(c),
        in_field::<F>(w),
        vpow::<F>(w, pow2((m - 1) as nat)) == F::vneg(1),
        i < c.len(),
    ensures
        fsum::<F>(
            |k: int|
                F::vmul(
                    horner::<F>(c, vpow::<F>(w, k as nat)),
                    vpow::<F>(vpow::<F>(vpow::<F>(w, (c.len() - 1) as nat), i), k as nat),
                ),
            c.len(),
        ) == F::vmul(c[i as int], of_nat::<F>(c.len())),
{
    F::lemma_order();
    let n = c.len();
    let e = (n - 1) as nat;
    let y = vpow::<F>(vpow::<F>(w, e), i);
    lemma_pow_in_field::<F>(w, e);
    lemma_pow_in_field::<F>(vpow::<F>(w, e), i);
    let h = |j: int, k: int| F::vmul(c[j], vpow::<F>(vpow::<F>(w, (j + e * i) as nat), k as nat));
    // each outer term is a sum over j
    assert forall|k: int| 0 <= k < n implies #[trigger] F::vmul(
        horner::<F>(c, vpow::<F>(w, k as nat)),
        vpow::<F>(y, k as nat),
    ) == fsum::<F>(|j: int| h(j, k), n) by {
        let wk = vpow::<F>(w, k as nat);
        lemma_pow_in_field::<F>(w, k as nat);
        lemma_horner_is_sum::<F>(c, wk);
        let row = |j: int| F::vmul(c[j], vpow::<F>(wk, j as nat));
        assert forall|j: int| 0 <= j < n implies #[trigger] in_field::<F>(row(j)) by {
            assert(in_field::<F>(c[j]));
            lemma_pow_in_field::<F>(wk, j as nat);
            F::lemma_closed(c[j], vpow::<F>(wk, j as nat));
        }
        lemma_fsum_in_field::<F>(row, n);
        let yk = vpow::<F>(y, k as nat);
        lemma_pow_in_field::<F>(y, k as nat);
        F::lemma_mul_laws(fsum::<F>(row, n), yk, 0);
        lemma_fsum_scale::<F>(yk, row, n);
        assert forall|j: int| 0 <= j < n implies #[trigger] F::vmul(yk, row(j)) == h(j, k) by {
            assert(in_field::<F>(c[j]));
            lemma_double_sum_term::<F>(c[j], w, e, i, j as nat, k as nat);
            assert((j as nat + e * i) as nat == (j + e * i) as nat);
        }
        lemma_fsum_ext::<F>(|j: int| F::vmul(yk, row(j)), |j: int| h(j, k), n);
    }
    lemma_fsum_ext::<F>(
        |k: int| F::vmul(horner::<F>(c, vpow::<F>(w, k as nat)), vpow::<F>(y, k as nat)),
        |k: int| fsum::<F>(|j: int| h(j, k), n),
        n,
    );
    // swap the sums
    assert forall|j: int, k: int| 0 <= j < n && 0 <= k < n implies #[trigger] in_field::<F>(h(j, k)) by {
        assert(in_field::<F>(c[j]));
        lemma_pow_in_field::<F>(w, (j + e * i) as nat);
        lemma_pow_in_field::<F>(vpow::<F>(w, (j + e * i) as nat), k as nat);
        F::lemma_closed(c[j], vpow::<F>(vpow::<F>(w, (j + e * i) as nat), k as nat));
    }
    lemma_fsum_swap::<F>(h, n, n);
    // each row is c_j times a geometric sum
    let big_n = of_nat::<F>(n);
    let t = |j: int| if j == i { F::vmul(c[j], big_n) } else { 0int };
    assert forall|j: int| 0 <= j < n implies fsum::<F>(|k: int| h(j, k), n) == #[trigger] t(j) by {
        let d = (j + e * i) as nat;
        let geo = |k: int| vpow::<F>(vpow::<F>(w, d), k as nat);
        assert forall|k: int| 0 <= k < n implies #[trigger] in_field::<F>(geo(k)) by {
            lemma_pow_in_field::<F>(w, d);
            lemma_pow_in_field::<F>(vpow::<F>(w, d), k as nat);
        }
        assert(in_field::<F>(c[j]));
        lemma_fsum_scale::<F>(c[j], geo, n);
        lemma_fsum_ext::<F>(|k: int| h(j, k), |k: int| F::vmul(c[j], geo(k)), n);
        lemma_geometric::<F>(w, d, m);
        lemma_exponent_divisible(n, i, j as nat);
        assert(e * i == (n - 1) * i);
        F::lemma_mul_laws(c[j], 0, 0);
    }
    lemma_fsum_ext::<F>(|j: int| fsum::<F>(|k: int| h(j, k), n), t, n);
    assert(in_field::<F>(c[i as int]));
    lemma_of_nat_in_field::<F>(n);
    F::lemma_closed(c[i as int], big_n);
    lemma_fsum_single::<F>(t, n, i as int);
}

/// The inverse transform undoes the transform: for `w` a principal root of
/// unity of order `n = 2^m` (`w^(n/2) == -1`), `w * w_inv == 1` and
/// `n * n_inv == 1`, transforming with `w`, then with `w_inv`, and scaling
/// by `n_inv` gives every coefficient back.
pub proof fn lemma_intt_inverts<F: Field>(c: Seq<int>, w: int, w_inv: int, n_inv: int, m: nat)
    requires
        c.len() == pow2(m),
        all_in_field::<F>(c),
        in_field::<F>(w),
        in_field::<F>(w_inv),
        in_field::<F>(n_inv),
        F::vmul(w, w_inv) == 1,
        m > 0 ==> vpow::<F>(w, pow2((m - 1) as nat)) == F::vneg(1),
        F::vmul(of_nat::<F>(pow2(m)), n_inv) == 1,
    ensures
        ntt_spec::<F>(ntt_spec::<F>(c, w), w_inv).len() == c.len(),
        forall|i: int|
            0 <= i < c.len() ==> #[trigger] F::vmul(ntt_spec::<F>(ntt_spec::<F>(c, w), w_inv)[i], n_inv) == c[i],
{
    F::lemma_order();
    let n = c.len();
    lemma_pow2_pos(m);
    if m == 0 {
        lemma2_to64();
        assert(of_nat::<F>(1) == F::vadd(of_nat::<F>(0), 1));
        F::lemma_add_laws(1, 0, 0);
        F::lemma_add_laws(0, 1, 0);
        F::lemma_mul_laws(n_inv, 1, 0);
        F::lemma_mul_laws(1, n_inv, 0);
        assert forall|i: int| 0 <= i < c.len() implies #[trigger] F::vmul(
            ntt_spec::<F>(ntt_spec::<F>(c, w), w_inv)[i],
            n_inv,
        ) == c[i] by {
            assert(i == 0);
            assert(in_field::<F>(c[0]));
            F::lemma_mul_laws(c[0], 1, 0);
        }
    } else {
        let h = pow2((m - 1) as nat);
        let e = (n - 1) as nat;
        lemma_pow2_unfold(m);
        // w^n == 1
        lemma_pow_add::<F>(w, h, h);
        lemma_neg_one_squared::<F>();
        assert(vpow::<F>(w, n) == 1);
        // w_inv == w^(n - 1)
        F::lemma_pow_unfold(w, n);
        lemma_pow_in_field::<F>(w, e);
        F::lemma_mul_laws(w_inv, w, vpow::<F>(w, e));
        F::lemma_mul_laws(w, w_inv, 0);
        F::lemma_mul_laws(w_inv, 1, 0);
        F::lemma_mul_laws(1, vpow::<F>(w, e), 0);
        F::lemma_mul_laws(vpow::<F>(w, e), 1, 0);
        assert(w_inv == vpow::<F>(w, e));
        // w_inv is principal as well: w_inv^h * w^h == 1
        lemma_pow_mul::<F>(w, e, h);
        lemma_pow_add::<F>(w, e * h, h);
        assert(e * h + h == n * h) by (nonlinear_arith)
            requires
                e == n - 1,
        ;
        lemma_pow_mul::<F>(w, n, h);
        lemma_pow_one::<F>(h);
        let yh = vpow::<F>(w_inv, h);
        lemma_pow_in_field::<F>(w_inv, h);
        assert(F::vmul(yh, F::vneg(1)) == 1);
        let m1 = F::vneg(1);
        F::lemma_closed(1, 1);
        F::lemma_mul_laws(yh, m1, m1);
        F::lemma_mul_laws(yh, 1, 0);
        F::lemma_mul_laws(1, m1, 0);
        F::lemma_mul_laws(m1, 1, 0);
        assert(yh == F::vneg(1));
        // both transforms evaluate
        crate::fft::laws::lemma_ntt_evaluates::<F>(c, w, m);
        let a = ntt_spec::<F>(c, w);
        assert forall|k: int| 0 <= k < a.len() implies #[trigger] in_field::<F>(a[k]) by {
            lemma_pow_in_field::<F>(w, k as nat);
            crate::fft::laws::lemma_horner_in_field::<F>(c, vpow::<F>(w, k as nat));
        }
        crate::fft::laws::lemma_ntt_evaluates::<F>(a, w_inv, m);
        let b = ntt_spec::<F>(a, w_inv);
        assert forall|i: int| 0 <= i < c.len() implies #[trigger] F::vmul(b[i], n_inv) == c[i] by {
            let yi = vpow::<F>(w_inv, i as nat);
            lemma_pow_in_field::<F>(w_inv, i as nat);
            lemma_horner_is_sum::<F>(a, yi);
            lemma_fsum_ext::<F>(
                |k: int| F::vmul(a[k], vpow::<F>(yi, k as nat)),
                |k: int|
                    F::vmul(
                        horner::<F>(c, vpow::<F>(w, k as nat)),
                        vpow::<F>(vpow::<F>(vpow::<F>(w, (c.len() - 1) as nat), i as nat), k as nat),
                    ),
                n,
            );
            lemma_inverse_entry::<F>(c, w, m, i as nat);
            assert(in_field::<F>(c[i]));
            lemma_of_nat_in_field::<F>(n);
            F::lemma_mul_laws(c[i], of_nat::<F>(n), n_inv);
            F::lemma_mul_laws(c[i], 1, 0);
        }
    }
}

} // verus!
