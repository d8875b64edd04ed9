//! The product of two polynomials evaluates to the product of their values.

use vstd::prelude::*;

use crate::field::sums::{fsum, lemma_fsum_ext, lemma_fsum_in_field, lemma_fsum_scale, lemma_fsum_split, lemma_fsum_swap, lemma_fsum_zero};
use crate::field::{all_in_field, in_field, lemma_pow_add, lemma_pow_in_field, lemma_sum_in_field, sum_values, vpow, Field};
use crate::fft::inverse::lemma_horner_is_sum;
use super::univariate::{horner, product_coeff};

verus! {

/// The term `a[i] * b[k - i]` of coefficient `k` of a product, zero where
/// `b` has no coefficient `k - i`.
pub open spec fn conv_term<F: Field>(a: Seq<int>, b: Seq<int>, k: int, i: int) -> int {
    if 0 <= k - i < b.len() {
        F::vmul(a[i], b[k - i])
    } else {
        0
    }
}

/// The coefficients of the product of `a` and `b` (both nonempty).
pub open spec fn product_coeffs<F: Field>(a: Seq<int>, b: Seq<int>) -> Seq<int> {
    Seq::new((a.len() + b.len() - 1) as nat, |k: int| product_coeff::<F>(a, b, k))
}

pub proof fn lemma_sum_values_is_fsum<F: Field>(f: spec_fn(int) -> int, n: nat)
    ensures
        sum_values::<F>(Seq::new(n, f)) == fsum::<F>(f, n),
    decreases n,
{
    if n > 0 {
        lemma_sum_values_is_fsum::<F>(f, (n - 1) as nat);
        assert(Seq::new(n, f).drop_last() =~= Seq::new((n - 1) as nat, f));
    }
}

proof fn lemma_conv_term_in_field<F: Field>(a: Seq<int>, b: Seq<int>, k: int, i: int)
    requires
        all_in_field::<F>(a),
        all_in_field::<F>(b),
        0 <= i < a.len(),
    ensures
        in_field::<F>(conv_term::<F>(a, b, k, i)),
{
    F::lemma_order();
    if 0 <= k - i < b.len() {
        assert(in_field::<F>(a[i]));
        assert(in_field::<F>(b[k - i]));
        F::lemma_closed(a[i], b[k - i]);
    }
}

/// Coefficient `k` of the product is the sum of its terms over every index
/// of `a`.
proof fn lemma_product_coeff_is_sum<F: Field>(a: Seq<int>, b: Seq<int>, k: int)
    requires
        a.len() > 0,
        b.len() > 0,
        all_in_field::<F>(a),
        all_in_field::<F>(b),
        0 <= k < a.len() + b.len() - 1,
    ensures
        product_coeff::<F>(a, b, k) == fsum::<F>(|i: int| conv_term::<F>(a, b, k, i), a.len()),
{
    F::lemma_order();
    let lo = if k - (b.len() - 1) > 0 {
        k - (b.len() - 1)
    } else {
        0
    };
    let hi = if k < a.len() - 1 {
        k
    } else {
        a.len() - 1
    };
    let n = (hi - lo + 1) as nat;
    let rest = (a.len() - 1 - hi) as nat;
    let term = |j: int| F::vmul(a[lo + j], b[k - (lo + j)]);
    let h = |i: int| conv_term::<F>(a, b, k, i);
    lemma_sum_values_is_fsum::<F>(term, n);
    assert forall|i: int| 0 <= i < a.len() implies #[trigger] in_field::<F>(h(i)) by {
        lemma_conv_term_in_field::<F>(a, b, k, i);
    }
    assert(lo as nat + (n + rest) == a.len());
    lemma_fsum_split::<F>(h, lo as nat, n + rest);
    assert forall|i: int| 0 <= i < lo implies #[trigger] h(i) == 0 by {}
    lemma_fsum_zero::<F>(h, lo as nat);
    let h1 = |i: int| h(lo + i);
    assert forall|i: int| 0 <= i < n + rest implies #[trigger] in_field::<F>(h1(i)) by {
        assert(in_field::<F>(h(lo + i)));
    }
    lemma_fsum_split::<F>(h1, n, rest);
    let h2 = |i: int| h1(n + i);
    assert forall|i: int| 0 <= i < rest implies #[trigger] h2(i) == 0 by {}
    lemma_fsum_zero::<F>(h2, rest);
    assert forall|j: int| 0 <= j < n implies #[trigger] h1(j) == term(j) by {}
    lemma_fsum_ext::<F>(h1, term, n);
    assert forall|j: int| 0 <= j < n implies #[trigger] in_field::<F>(term(j)) by {
        assert(in_field::<F>(h1(j)));
    }
    lemma_fsum_in_field::<F>(term, n);
    F::lemma_add_laws(fsum::<F>(term, n), 0, 0);
    F::lemma_add_laws(0, fsum::<F>(term, n), 0);
}

proof fn lemma_mul_rearrange<F: Field>(u: int, v: int, s: int, t: int)
    requires
        in_field::<F>(u),
        in_field::<F>(v),
        in_field::<F>(s),
        in_field::<F>(t),
    ensures
        F::vmul(F::vmul(u, v), F::vmul(s, t)) == F::vmul(F::vmul(s, u), F::vmul(t, v)),
{
    F::lemma_order();
    F::lemma_closed(u, v);
    F::lemma_closed(s, t);
    F::lemma_closed(s, u);
    F::lemma_closed(t, v);
    F::lemma_closed(v, t);
    F::lemma_closed(u, s);
    // (u v)(s t) = u (v (s t)) = u ((s t) v) = u (s (t v)) = (u s)(t v) = (s u)(t v)
    F::lemma_mul_laws(u, v, F::vmul(s, t));
    F::lemma_mul_laws(v, F::vmul(s, t), 0);
    F::lemma_mul_laws(s, t, v);
    F::lemma_closed(F::vmul(t, v), 0);
    F::lemma_mul_laws(u, s, F::vmul(t, v));
    F::lemma_mul_laws(u, s, 0);
}

/// Row `i` of the double sum: the terms of `a[i]` over every power of `x`
/// add up to `a[i] x^i` times the value of `b`.
proof fn lemma_row_sum<F: Field>(a: Seq<int>, b: Seq<int>, x: int, i: int)
    requires
        a.len() > 0,
        b.len() > 0,
        all_in_field::<F>(a),
        all_in_field::<F>(b),
        in_field::<F>(x),
        0 <= i < a.len(),
    ensures
        fsum::<F>(
            |k: int| F::vmul(vpow::<F>(x, k as nat), conv_term::<F>(a, b, k, i)),
            (a.len() + b.len() - 1) as nat,
        ) == F::vmul(
            F::vmul(a[i], vpow::<F>(x, i as nat)),
            fsum::<F>(|j: int| F::vmul(b[j], vpow::<F>(x, j as nat)), b.len()),
        ),
{
    F::lemma_order();
    let g = |k: int| F::vmul(vpow::<F>(x, k as nat), conv_term::<F>(a, b, k, i));
    let rest = (a.len() - 1 - i) as nat;
    let lb = b.len();
    assert forall|k: int| 0 <= k < a.len() + b.len() - 1 implies #[trigger] in_field::<F>(g(k)) by {
        lemma_pow_in_field::<F>(x, k as nat);
        lemma_conv_term_in_field::<F>(a, b, k, i);
        F::lemma_closed(vpow::<F>(x, k as nat), conv_term::<F>(a, b, k, i));
    }
    assert(i as nat + (lb + rest) == a.len() + b.len() - 1);
    lemma_fsum_split::<F>(g, i as nat, lb + rest);
    assert forall|k: int| 0 <= k < i implies #[trigger] g(k) == 0 by {
        lemma_pow_in_field::<F>(x, k as nat);
        F::lemma_mul_laws(vpow::<F>(x, k as nat), 0, 0);
    }
    lemma_fsum_zero::<F>(g, i as nat);
    let g1 = |k: int| g(i + k);
    assert forall|k: int| 0 <= k < lb + rest implies #[trigger] in_field::<F>(g1(k)) by {
        assert(in_field::<F>(g(i + k)));
    }
    lemma_fsum_split::<F>(g1, lb, rest);
    let g2 = |k: int| g1(lb + k);
    assert forall|k: int| 0 <= k < rest implies #[trigger] g2(k) == 0 by {
        lemma_pow_in_field::<F>(x, (i + lb + k) as nat);
        F::lemma_mul_laws(vpow::<F>(x, (i + lb + k) as nat), 0, 0);
    }
    lemma_fsum_zero::<F>(g2, rest);
    let ai = a[i];
    let xi = vpow::<F>(x, i as nat);
    let bterm = |j: int| F::vmul(b[j], vpow::<F>(x, j as nat));
    let scaled = |j: int| F::vmul(F::vmul(ai, xi), bterm(j));
    assert forall|k: int| 0 <= k < lb implies #[trigger] g1(k) == scaled(k) by {
        assert(in_field::<F>(a[i]));
        assert(in_field::<F>(b[k]));
        lemma_pow_in_field::<F>(x, i as nat);
        lemma_pow_in_field::<F>(x, k as nat);
        lemma_pow_add::<F>(x, i as nat, k as nat);
        assert((i + k) as nat == i as nat + k as nat);
        lemma_mul_rearrange::<F>(xi, vpow::<F>(x, k as nat), ai, b[k]);
    }
    lemma_fsum_ext::<F>(g1, scaled, lb);
    assert forall|j: int| 0 <= j < lb implies #[trigger] in_field::<F>(bterm(j)) by {
        assert(in_field::<F>(b[j]));
        lemma_pow_in_field::<F>(x, j as nat);
        F::lemma_closed(b[j], vpow::<F>(x, j as nat));
    }
    assert(in_field::<F>(ai));
    lemma_pow_in_field::<F>(x, i as nat);
    F::lemma_closed(ai, xi);
    lemma_fsum_scale::<F>(F::vmul(ai, xi), bterm, lb);
    assert forall|j: int| 0 <= j < lb implies #[trigger] in_field::<F>(scaled(j)) by {
        assert(in_field::<F>(bterm(j)));
        F::lemma_closed(F::vmul(ai, xi), bterm(j));
    }
    lemma_fsum_in_field::<F>(scaled, lb);
    F::lemma_add_laws(fsum::<F>(scaled, lb), 0, 0);
    F::lemma_add_laws(0, fsum::<F>(scaled, lb), 0);
}

/// The product of two polynomials evaluates, at every field element, to the
/// product of their values: `(a b)(x) == a(x) b(x)`.
pub proof fn lemma_mul_evaluates<F: Field>(a: Seq<int>, b: Seq<int>, x: int)
    requires
        a.len() > 0,
        b.len() > 0,
        all_in_field::<F>(a),
        all_in_field::<F>(b),
        in_field::<F>(x),
    ensures
        horner::<F>(product_coeffs::<F>(a, b), x) == F::vmul(horner::<F>(a, x), horner::<F>(b, x)),
{
    F::lemma_order();
    let la = a.len();
    let lb = b.len();
    let l = (la + lb - 1) as nat;
    let c = product_coeffs::<F>(a, b);
    assert forall|k: int| 0 <= k < l implies #[trigger] in_field::<F>(c[k]) by {
        lemma_product_coeff_is_sum::<F>(a, b, k);
        assert forall|i: int| 0 <= i < la implies #[trigger] in_field::<F>(conv_term::<F>(a, b, k, i)) by {
            lemma_conv_term_in_field::<F>(a, b, k, i);
        }
        lemma_fsum_in_field::<F>(|i: int| conv_term::<F>(a, b, k, i), la);
    }
    lemma_horner_is_sum::<F>(c, x);
    lemma_horner_is_sum::<F>(a, x);
    lemma_horner_is_sum::<F>(b, x);
    let gg = |i: int, k: int| F::vmul(vpow::<F>(x, k as nat), conv_term::<F>(a, b, k, i));
    // each column is coefficient k times x^k
    assert forall|k: int| 0 <= k < l implies #[trigger] F::vmul(c[k], vpow::<F>(x, k as nat)) == fsum::<F>(
        |i: int| gg(i, k),
        la,
    ) by {
        lemma_product_coeff_is_sum::<F>(a, b, k);
        let t = |i: int| conv_term::<F>(a, b, k, i);
        assert forall|i: int| 0 <= i < la implies #[trigger] in_field::<F>(t(i)) by {
            lemma_conv_term_in_field::<F>(a, b, k, i);
        }
        lemma_pow_in_field::<F>(x, k as nat);
        lemma_fsum_scale::<F>(vpow::<F>(x, k as nat), t, la);
        lemma_fsum_ext::<F>(|i: int| F::vmul(vpow::<F>(x, k as nat), t(i)), |i: int| gg(i, k), la);
        assert(in_field::<F>(c[k]));
        F::lemma_mul_laws(c[k], vpow::<F>(x, k as nat), 0);
    }
    lemma_fsum_ext::<F>(
        |k: int| F::vmul(c[k], vpow::<F>(x, k as nat)),
        |k: int| fsum::<F>(|i: int| gg(i, k), la),
        l,
    );
    assert forall|i: int, k: int| 0 <= i < la && 0 <= k < l implies #[trigger] in_field::<F>(gg(i, k)) by {
        lemma_pow_in_field::<F>(x, k as nat);
        lemma_conv_term_in_field::<F>(a, b, k, i);
        F::lemma_closed(vpow::<F>(x, k as nat), conv_term::<F>(a, b, k, i));
    }
    lemma_fsum_swap::<F>(gg, l, la);
    let bsum = fsum::<F>(|j: int| F::vmul(b[j], vpow::<F>(x, j as nat)), lb);
    let aterm = |i: int| F::vmul(a[i], vpow::<F>(x, i as nat));
    assert forall|j: int| 0 <= j < lb implies #[trigger] in_field::<F>(F::vmul(b[j], vpow::<F>(x, j as nat))) by {
        assert(in_field::<F>(b[j]));
        lemma_pow_in_field::<F>(x, j as nat);
        F::lemma_closed(b[j], vpow::<F>(x, j as nat));
    }
    lemma_fsum_in_field::<F>(|j: int| F::vmul(b[j], vpow::<F>(x, j as nat)), lb);
    assert forall|i: int| #![trigger a[i]] 0 <= i < la implies fsum::<F>(|k: int| gg(i, k), l) == F::vmul(bsum, aterm(i)) by {
        lemma_row_sum::<F>(a, b, x, i);
        lemma_fsum_ext::<F>(
            |k: int| gg(i, k),
            |k: int| F::vmul(vpow::<F>(x, k as nat), conv_term::<F>(a, b, k, i)),
            l,
        );
        assert(in_field::<F>(a[i]));
        lemma_pow_in_field::<F>(x, i as nat);
        F::lemma_closed(a[i], vpow::<F>(x, i as nat));
        F::lemma_mul_laws(aterm(i), bsum, 0);
    }
    lemma_fsum_ext::<F>(|i: int| fsum::<F>(|k: int| gg(i, k), l), |i: int| F::vmul(bsum, aterm(i)), la);
    assert forall|i: int| 0 <= i < la implies #[trigger] in_field::<F>(aterm(i)) by {
        assert(in_field::<F>(a[i]));
        lemma_pow_in_field::<F>(x, i as nat);
        F::lemma_closed(a[i], vpow::<F>(x, i as nat));
    }
    lemma_fsum_scale::<F>(bsum, aterm, la);
    lemma_fsum_in_field::<F>(aterm, la);
    F::lemma_mul_laws(bsum, fsum::<F>(aterm, la), 0);
}

} // verus!
