//! The transform evaluates: with a principal root of unity, entry `k` of
//! the NTT is the polynomial's value at the `k`-th power of the root.

use vstd::prelude::*;
use vstd::arithmetic::power2::{lemma_pow2_unfold, pow2};

use super::{evens, ntt_spec, odds};
use crate::field::algebra::{lemma_add_rearrange, lemma_mul_distrib_right, lemma_mul_neg};
use crate::field::{all_in_field, in_field, lemma_pow_add, lemma_pow_in_field, vpow, Field};
use crate::poly::univariate::horner;

verus! {

proof fn lemma_parts_in_field<F: Field>(c: Seq<int>)
    requires
        all_in_field::<F>(c),
    ensures
        all_in_field::<F>(evens(c)),
        all_in_field::<F>(odds(c)),
{
    assert forall|i: int| 0 <= i < evens(c).len() implies #[trigger] in_field::<F>(evens(c)[i]) by {
        assert(in_field::<F>(c[2 * i]));
    }
    assert forall|i: int| 0 <= i < odds(c).len() implies #[trigger] in_field::<F>(odds(c)[i]) by {
        assert(in_field::<F>(c[2 * i + 1]));
    }
}

/// Horner evaluation of field values at a field value is a field value.
pub proof fn lemma_horner_in_field<F: Field>(c: Seq<int>, x: int)
    requires
        all_in_field::<F>(c),
        in_field::<F>(x),
    ensures
        in_field::<F>(horner::<F>(c, x)),
    decreases c.len(),
{
    F::lemma_order();
    if c.len() > 0 {
        assert forall|i: int| 0 <= i < c.drop_first().len() implies #[trigger] in_field::<F>(c.drop_first()[i]) by {
            assert(in_field::<F>(c[i + 1]));
        }
        lemma_horner_in_field::<F>(c.drop_first(), x);
        F::lemma_closed(horner::<F>(c.drop_first(), x), x);
        assert(in_field::<F>(c[0]));
        F::lemma_closed(F::vmul(horner::<F>(c.drop_first(), x), x), c[0]);
    }
}

/// `c0 + x (c1 + x (E + x O)) == (c0 + y E) + x (c1 + y O)` for `y = x^2`,
/// written as Horner steps.
proof fn lemma_split_step<F: Field>(c0: int, c1: int, e: int, o: int, x: int)
    requires
        in_field::<F>(c0),
        in_field::<F>(c1),
        in_field::<F>(e),
        in_field::<F>(o),
        in_field::<F>(x),
    ensures
        F::vadd(F::vmul(F::vadd(F::vmul(F::vadd(e, F::vmul(x, o)), x), c1), x), c0) == F::vadd(
            F::vadd(F::vmul(e, F::vmul(x, x)), c0),
            F::vmul(x, F::vadd(F::vmul(o, F::vmul(x, x)), c1)),
        ),
{
    F::lemma_order();
    let y = F::vmul(x, x);
    F::lemma_closed(x, x);
    F::lemma_closed(x, o);
    let xo = F::vmul(x, o);
    // A = e + x o; B = A x = e x + (x o) x
    lemma_mul_distrib_right::<F>(e, xo, x);
    F::lemma_closed(e, xo);
    F::lemma_closed(e, x);
    F::lemma_closed(xo, x);
    let ex = F::vmul(e, x);
    let xox = F::vmul(xo, x);
    let b = F::vadd(ex, xox);
    F::lemma_closed(ex, xox);
    // D = (B + c1) x = B x + c1 x
    lemma_mul_distrib_right::<F>(b, c1, x);
    lemma_mul_distrib_right::<F>(ex, xox, x);
    F::lemma_closed(ex, x);
    F::lemma_closed(xox, x);
    F::lemma_closed(c1, x);
    // P = (e x) x = e y
    F::lemma_mul_laws(e, x, x);
    let p = F::vmul(e, y);
    // Q = ((x o) x) x = x (o y)
    F::lemma_closed(o, x);
    F::lemma_closed(o, y);
    F::lemma_mul_laws(x, o, x);
    F::lemma_mul_laws(o, x, 0);
    F::lemma_mul_laws(x, x, o);
    F::lemma_mul_laws(y, o, 0);
    F::lemma_mul_laws(F::vmul(x, o), x, x);
    F::lemma_mul_laws(o, y, 0);
    F::lemma_mul_laws(x, F::vmul(o, x), x);
    F::lemma_mul_laws(o, x, x);
    F::lemma_mul_laws(x, o, y);
    F::lemma_mul_laws(x, y, o);
    let q = F::vmul(x, F::vmul(o, y));
    assert(F::vmul(xox, x) == q) by {
        // ((x o) x) x == (x o)(x x) == x (o (x x))
        F::lemma_mul_laws(xo, x, x);
        F::lemma_mul_laws(x, o, y);
    }
    // R = c1 x = x c1
    F::lemma_mul_laws(c1, x, 0);
    let r = F::vmul(x, c1);
    // RHS: x (o y + c1) = x (o y) + x c1
    F::lemma_mul_laws(x, F::vmul(o, y), c1);
    F::lemma_closed(x, F::vmul(o, y));
    F::lemma_closed(x, c1);
    F::lemma_closed(e, y);
    // ((P + Q) + R) + c0 == (P + c0) + (Q + R)
    F::lemma_closed(p, q);
    F::lemma_add_laws(F::vadd(p, q), r, c0);
    F::lemma_add_laws(r, c0, 0);
    lemma_add_rearrange::<F>(p, q, c0, r);
    F::lemma_add_laws(q, r, 0);
}

/// Horner's value splits into its even and odd coefficients:
/// `P(x) == E(x^2) + x O(x^2)`.
pub proof fn lemma_horner_split<F: Field>(c: Seq<int>, x: int)
    requires
        all_in_field::<F>(c),
        in_field::<F>(x),
    ensures
        horner::<F>(c, x) == F::vadd(
            horner::<F>(evens(c), F::vmul(x, x)),
            F::vmul(x, horner::<F>(odds(c), F::vmul(x, x))),
        ),
    decreases c.len(),
{
    F::lemma_order();
    F::lemma_closed(x, x);
    let y = F::vmul(x, x);
    if c.len() == 0 {
        assert(evens(c).len() == 0);
        assert(odds(c).len() == 0);
        F::lemma_mul_laws(x, 0, 0);
        F::lemma_add_laws(0, 0, 0);
        assert(horner::<F>(evens(c), y) == 0);
        assert(horner::<F>(odds(c), y) == 0);
        assert(horner::<F>(c, x) == F::vadd(horner::<F>(evens(c), y), F::vmul(x, horner::<F>(odds(c), y))));
    } else if c.len() == 1 {
        assert(odds(c).len() == 0);
        assert(evens(c) =~= c);
        assert(horner::<F>(c.drop_first(), x) == 0);
        assert(horner::<F>(evens(c).drop_first(), y) == 0);
        assert(horner::<F>(odds(c), y) == 0);
        assert(horner::<F>(c, x) == F::vadd(F::vmul(0, x), c[0]));
        assert(horner::<F>(evens(c), y) == F::vadd(F::vmul(0, y), c[0]));
        assert(in_field::<F>(c[0]));
        F::lemma_mul_laws(x, 0, 0);
        F::lemma_mul_laws(0, x, 0);
        F::lemma_mul_laws(0, y, 0);
        F::lemma_mul_laws(y, 0, 0);
        F::lemma_add_laws(0, c[0], 0);
        F::lemma_add_laws(c[0], 0, 0);
        assert(horner::<F>(c, x) == F::vadd(horner::<F>(evens(c), y), F::vmul(x, horner::<F>(odds(c), y))));
    } else {
        let d = c.drop_first().drop_first();
        assert forall|i: int| 0 <= i < d.len() implies #[trigger] in_field::<F>(d[i]) by {
            assert(in_field::<F>(c[i + 2]));
        }
        assert forall|i: int| 0 <= i < c.drop_first().len() implies #[trigger] in_field::<F>(c.drop_first()[i]) by {
            assert(in_field::<F>(c[i + 1]));
        }
        lemma_horner_split::<F>(d, x);
        assert(evens(c).drop_first() =~= evens(d));
        assert(odds(c).drop_first() =~= odds(d));
        assert(evens(c)[0] == c[0]);
        assert(odds(c)[0] == c[1]);
        assert(c.drop_first()[0] == c[1]);
        assert(c.drop_first().drop_first() == d);
        lemma_parts_in_field::<F>(d);
        lemma_horner_in_field::<F>(evens(d), y);
        lemma_horner_in_field::<F>(odds(d), y);
        assert(in_field::<F>(c[0]));
        assert(in_field::<F>(c[1]));
        assert(horner::<F>(c, x) == F::vadd(F::vmul(horner::<F>(c.drop_first(), x), x), c[0]));
        assert(horner::<F>(c.drop_first(), x) == F::vadd(F::vmul(horner::<F>(d, x), x), c[1]));
        assert(horner::<F>(evens(c), y) == F::vadd(F::vmul(horner::<F>(evens(d), y), y), c[0]));
        assert(horner::<F>(odds(c), y) == F::vadd(F::vmul(horner::<F>(odds(d), y), y), c[1]));
        lemma_split_step::<F>(c[0], c[1], horner::<F>(evens(d), y), horner::<F>(odds(d), y), x);
        assert(horner::<F>(c, x) == F::vadd(horner::<F>(evens(c), y), F::vmul(x, horner::<F>(odds(c), y))));
    }
}

/// `(w^2)^j == w^(2j)`.
proof fn lemma_pow_square<F: Field>(w: int, j: nat)
    requires
        in_field::<F>(w),
    ensures
        vpow::<F>(F::vmul(w, w), j) == vpow::<F>(w, 2 * j),
    decreases j,
{
    F::lemma_order();
    F::lemma_closed(w, w);
    F::lemma_pow_unfold(F::vmul(w, w), j);
    F::lemma_pow_unfold(w, 0);
    if j > 0 {
        lemma_pow_square::<F>(w, (j - 1) as nat);
        // w^(2j) == w^2 * w^(2j - 2)
        lemma_pow_add::<F>(w, 2, (2 * j - 2) as nat);
        F::lemma_pow_unfold(w, 2);
        F::lemma_pow_unfold(w, 1);
        F::lemma_mul_laws(w, 1, 0);
        assert(vpow::<F>(w, 2) == F::vmul(w, w));
        assert((2 + (2 * j - 2)) as nat == 2 * j);
    }
}

/// With `w` a principal root of order `2^m` (so `w^(2^(m-1)) == -1`), entry
/// `k` of the NTT of `c` is `P(w^k)`, the value of the polynomial with
/// coefficients `c` at the `k`-th power of `w`.
pub proof fn lemma_ntt_evaluates<F: Field>(c: Seq<int>, w: int, m: nat)
    requires
        c.len() == pow2(m),
        all_in_field::<F>(c),
        in_field::<F>(w),
        m > 0 ==> vpow::<F>(w, pow2((m - 1) as nat)) == F::vneg(1),
    ensures
        ntt_spec::<F>(c, w).len() == c.len(),
        forall|k: int| 0 <= k < c.len() ==> #[trigger] ntt_spec::<F>(c, w)[k] == horner::<F>(c, vpow::<F>(w, k as nat)),
    decreases m,
{
    F::lemma_order();
    if m == 0 {
        assert(c.len() == 1) by {
            vstd::arithmetic::power2::lemma2_to64();
        }
        assert forall|k: int| 0 <= k < c.len() implies #[trigger] ntt_spec::<F>(c, w)[k] == horner::<F>(
            c,
            vpow::<F>(w, k as nat),
        ) by {
            assert(k == 0);
            assert(horner::<F>(c.drop_first(), vpow::<F>(w, 0)) == 0);
            F::lemma_pow_unfold(w, 0);
            F::lemma_mul_laws(0, 1, 0);
            F::lemma_mul_laws(1, 0, 0);
            assert(in_field::<F>(c[0]));
            F::lemma_add_laws(0, c[0], 0);
            F::lemma_add_laws(c[0], 0, 0);
        }
    } else {
        lemma_pow2_unfold(m);
        let half = c.len() / 2;
        let w2 = F::vmul(w, w);
        F::lemma_closed(w, w);
        lemma_parts_in_field::<F>(c);
        assert(evens(c).len() == pow2((m - 1) as nat));
        assert(odds(c).len() == pow2((m - 1) as nat));
        if m > 1 {
            lemma_pow2_unfold((m - 1) as nat);
            lemma_pow_square::<F>(w, pow2((m - 2) as nat));
            assert(2 * pow2((m - 2) as nat) == pow2((m - 1) as nat));
        }
        lemma_ntt_evaluates::<F>(evens(c), w2, (m - 1) as nat);
        lemma_ntt_evaluates::<F>(odds(c), w2, (m - 1) as nat);
        let e = ntt_spec::<F>(evens(c), w2);
        let o = ntt_spec::<F>(odds(c), w2);
        assert forall|k: int| 0 <= k < c.len() implies #[trigger] ntt_spec::<F>(c, w)[k] == horner::<F>(
            c,
            vpow::<F>(w, k as nat),
        ) by {
            let j = if k < half {
                k
            } else {
                k - half
            };
            let a = vpow::<F>(w, j as nat);
            lemma_pow_in_field::<F>(w, j as nat);
            lemma_pow_in_field::<F>(w, k as nat);
            lemma_pow_square::<F>(w, j as nat);
            lemma_pow_add::<F>(w, j as nat, j as nat);
            assert((j + j) as nat == 2 * (j as nat));
            assert(vpow::<F>(w2, j as nat) == F::vmul(a, a));
            let ej = e[j];
            let oj = o[j];
            assert(ej == horner::<F>(evens(c), F::vmul(a, a)));
            assert(oj == horner::<F>(odds(c), F::vmul(a, a)));
            F::lemma_closed(a, a);
            lemma_horner_in_field::<F>(odds(c), F::vmul(a, a));
            lemma_horner_in_field::<F>(evens(c), F::vmul(a, a));
            if k < half {
                lemma_horner_split::<F>(c, a);
            } else {
                // w^k == w^j * w^half == -w^j
                lemma_pow_add::<F>(w, j as nat, half as nat);
                assert((j + half) as nat == k as nat);
                F::lemma_closed(1, 1);
                lemma_mul_neg::<F>(a, 1);
                F::lemma_mul_laws(a, 1, 0);
                let na = F::vneg(a);
                F::lemma_closed(a, a);
                assert(vpow::<F>(w, k as nat) == na);
                // (-a)(-a) == a a
                lemma_mul_neg::<F>(na, a);
                F::lemma_mul_laws(na, a, 0);
                F::lemma_mul_laws(a, na, 0);
                lemma_mul_neg::<F>(a, a);
                F::lemma_add_laws(F::vmul(a, a), 0, 0);
                assert(F::vmul(na, na) == F::vneg(F::vneg(F::vmul(a, a))));
                assert(F::vmul(na, na) == F::vmul(a, a));
                lemma_horner_split::<F>(c, na);
                // -a * o == -(a o)
                F::lemma_mul_laws(na, oj, 0);
                F::lemma_mul_laws(oj, a, 0);
                lemma_mul_neg::<F>(oj, a);
                F::lemma_closed(a, oj);
                F::lemma_add_laws(ej, F::vmul(a, oj), 0);
            }
        }
    }
}

} // verus!
