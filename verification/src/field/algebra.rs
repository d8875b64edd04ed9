//! Consequences of the field laws, for any `F: Field`.

use vstd::prelude::*;

use super::{in_field, Field};

verus! {

/// `(a + b) + (c + d) == (a + c) + (b + d)`.
pub proof fn lemma_add_rearrange<F: Field>(a: int, b: int, c: int, d: int)
    requires
        in_field::<F>(a),
        in_field::<F>(b),
        in_field::<F>(c),
        in_field::<F>(d),
    ensures
        F::vadd(F::vadd(a, b), F::vadd(c, d)) == F::vadd(F::vadd(a, c), F::vadd(b, d)),
{
    F::lemma_closed(a, b);
    F::lemma_closed(c, d);
    F::lemma_closed(b, c);
    F::lemma_closed(c, b);
    F::lemma_closed(a, c);
    F::lemma_closed(b, d);
    F::lemma_closed(F::vadd(b, c), d);
    F::lemma_closed(F::vadd(c, b), d);
    // (a + b) + (c + d) = a + (b + (c + d)) = a + ((b + c) + d)
    F::lemma_add_laws(a, b, F::vadd(c, d));
    F::lemma_add_laws(b, c, d);
    // b + c = c + b
    F::lemma_add_laws(b, c, 0);
    // a + ((c + b) + d) = a + (c + (b + d)) = (a + c) + (b + d)
    F::lemma_add_laws(c, b, d);
    F::lemma_add_laws(a, c, F::vadd(b, d));
}

/// `-(a + b) == -a + -b`.
pub proof fn lemma_neg_add<F: Field>(a: int, b: int)
    requires
        in_field::<F>(a),
        in_field::<F>(b),
    ensures
        F::vneg(F::vadd(a, b)) == F::vadd(F::vneg(a), F::vneg(b)),
{
    let s = F::vadd(a, b);
    let na = F::vneg(a);
    let nb = F::vneg(b);
    F::lemma_order();
    F::lemma_closed(a, b);
    F::lemma_closed(b, a);
    F::lemma_closed(na, nb);
    F::lemma_closed(s, 0);
    let ns = F::vneg(s);
    let t = F::vadd(na, nb);
    // s + t == (a + na) + (b + nb) == 0
    lemma_add_rearrange::<F>(a, b, na, nb);
    F::lemma_add_laws(a, 0, 0);
    F::lemma_add_laws(b, 0, 0);
    F::lemma_add_laws(0, 0, 0);
    assert(F::vadd(s, t) == 0);
    // ns == ns + (s + t) == (ns + s) + t == t
    F::lemma_add_laws(ns, s, t);
    F::lemma_add_laws(s, ns, 0);
    F::lemma_add_laws(ns, 0, 0);
    F::lemma_add_laws(t, 0, 0);
    F::lemma_add_laws(0, t, 0);
}

/// `(a + b) - (c + d) == (a - c) + (b - d)`.
pub proof fn lemma_sub_add<F: Field>(a: int, b: int, c: int, d: int)
    requires
        in_field::<F>(a),
        in_field::<F>(b),
        in_field::<F>(c),
        in_field::<F>(d),
    ensures
        F::vsub(F::vadd(a, b), F::vadd(c, d)) == F::vadd(F::vsub(a, c), F::vsub(b, d)),
{
    F::lemma_order();
    F::lemma_closed(a, b);
    F::lemma_closed(c, d);
    F::lemma_closed(c, c);
    F::lemma_closed(d, d);
    F::lemma_closed(a, c);
    F::lemma_closed(b, d);
    F::lemma_add_laws(F::vadd(a, b), F::vadd(c, d), 0);
    F::lemma_add_laws(a, c, 0);
    F::lemma_add_laws(b, d, 0);
    lemma_neg_add::<F>(c, d);
    lemma_add_rearrange::<F>(a, b, F::vneg(c), F::vneg(d));
}

/// `(x + y) * r == x * r + y * r`.
pub proof fn lemma_mul_distrib_right<F: Field>(x: int, y: int, r: int)
    requires
        in_field::<F>(x),
        in_field::<F>(y),
        in_field::<F>(r),
    ensures
        F::vmul(F::vadd(x, y), r) == F::vadd(F::vmul(x, r), F::vmul(y, r)),
{
    F::lemma_closed(x, y);
    F::lemma_mul_laws(F::vadd(x, y), r, 0);
    F::lemma_mul_laws(r, x, y);
    F::lemma_mul_laws(x, r, 0);
    F::lemma_mul_laws(y, r, 0);
}

/// The linear interpolation `e + (o - e) * r` is additive in `(e, o)`.
pub proof fn lemma_interp_add<F: Field>(e1: int, o1: int, e2: int, o2: int, r: int)
    requires
        in_field::<F>(e1),
        in_field::<F>(o1),
        in_field::<F>(e2),
        in_field::<F>(o2),
        in_field::<F>(r),
    ensures
        F::vadd(
            F::vadd(e1, F::vmul(F::vsub(o1, e1), r)),
            F::vadd(e2, F::vmul(F::vsub(o2, e2), r)),
        ) == F::vadd(
            F::vadd(e1, e2),
            F::vmul(F::vsub(F::vadd(o1, o2), F::vadd(e1, e2)), r),
        ),
{
    F::lemma_closed(o1, e1);
    F::lemma_closed(o2, e2);
    F::lemma_closed(F::vsub(o1, e1), r);
    F::lemma_closed(F::vsub(o2, e2), r);
    lemma_add_rearrange::<F>(e1, F::vmul(F::vsub(o1, e1), r), e2, F::vmul(F::vsub(o2, e2), r));
    lemma_sub_add::<F>(o1, o2, e1, e2);
    lemma_mul_distrib_right::<F>(F::vsub(o1, e1), F::vsub(o2, e2), r);
}

/// `a - b` is zero exactly when `a == b`.
pub proof fn lemma_sub_zero_iff<F: Field>(a: int, b: int)
    requires
        in_field::<F>(a),
        in_field::<F>(b),
    ensures
        (F::vsub(a, b) == 0) <==> (a == b),
{
    F::lemma_order();
    F::lemma_add_laws(a, b, 0);
    F::lemma_add_laws(b, a, 0);
    F::lemma_closed(a, b);
    F::lemma_closed(b, a);
    let nb = F::vneg(b);
    F::lemma_add_laws(a, nb, b);
    F::lemma_add_laws(nb, b, 0);
    F::lemma_add_laws(0, b, 0);
    if F::vsub(a, b) == 0 {
        // a == (a + (-b)) + b == 0 + b == b
        assert(F::vadd(F::vadd(a, nb), b) == F::vadd(a, F::vadd(nb, b)));
        assert(F::vadd(nb, b) == F::vadd(b, nb));
        assert(F::vadd(b, nb) == 0);
        assert(F::vadd(0, b) == F::vadd(b, 0));
    }
}

/// The additive inverse is unique: `a + b == 0` forces `b == -a`.
pub proof fn lemma_neg_unique<F: Field>(a: int, b: int)
    requires
        in_field::<F>(a),
        in_field::<F>(b),
        F::vadd(a, b) == 0,
    ensures
        b == F::vneg(a),
{
    F::lemma_order();
    F::lemma_closed(a, b);
    let na = F::vneg(a);
    F::lemma_add_laws(b, a, na);
    F::lemma_add_laws(a, b, 0);
    F::lemma_add_laws(0, na, 0);
    F::lemma_add_laws(na, 0, 0);
    // b == b + (a + -a) == (b + a) + -a == 0 + -a == -a
}

/// `x * (-y) == -(x * y)`.
pub proof fn lemma_mul_neg<F: Field>(x: int, y: int)
    requires
        in_field::<F>(x),
        in_field::<F>(y),
    ensures
        F::vmul(x, F::vneg(y)) == F::vneg(F::vmul(x, y)),
{
    F::lemma_order();
    F::lemma_closed(x, y);
    F::lemma_closed(y, x);
    let ny = F::vneg(y);
    F::lemma_add_laws(y, ny, 0);
    F::lemma_mul_laws(x, y, ny);
    F::lemma_mul_laws(x, 0, 0);
    F::lemma_closed(x, ny);
    lemma_neg_unique::<F>(F::vmul(x, y), F::vmul(x, ny));
}

/// `(-1) * (-1) == 1`.
pub proof fn lemma_neg_one_squared<F: Field>()
    ensures
        F::vmul(F::vneg(1), F::vneg(1)) == 1,
{
    F::lemma_order();
    F::lemma_closed(1, 1);
    let m = F::vneg(1);
    lemma_mul_neg::<F>(m, 1);
    F::lemma_mul_laws(m, 1, 0);
    F::lemma_add_laws(1, 0, 0);
}

/// `1^n == 1`.
pub proof fn lemma_pow_one<F: Field>(n: nat)
    ensures
        F::vpow(1, n) == 1,
    decreases n,
{
    F::lemma_order();
    F::lemma_pow_unfold(1, n);
    if n > 0 {
        lemma_pow_one::<F>((n - 1) as nat);
        F::lemma_mul_laws(1, 1, 0);
    }
}

/// `(-1)^n` is 1 for even `n` and -1 for odd `n`.
pub proof fn lemma_pow_neg_one<F: Field>(n: nat)
    ensures
        F::vpow(F::vneg(1), n) == if n % 2 == 0 {
            1
        } else {
            F::vneg(1)
        },
    decreases n,
{
    F::lemma_order();
    F::lemma_closed(1, 1);
    let m = F::vneg(1);
    F::lemma_pow_unfold(m, n);
    if n > 0 {
        lemma_pow_neg_one::<F>((n - 1) as nat);
        F::lemma_mul_laws(m, 1, 0);
        lemma_neg_one_squared::<F>();
    }
}

/// `-1` is its own inverse: `(-1)^inv_exponent() == -1`.
pub proof fn lemma_neg_one_inverse<F: Field>()
    ensures
        F::vpow(F::vneg(1), F::inv_exponent()) == F::vneg(1),
{
    F::lemma_order();
    F::lemma_odd_inverse_or_char_two();
    lemma_pow_neg_one::<F>(F::inv_exponent());
    if F::vneg(1) == 1 {
        lemma_pow_one::<F>(F::inv_exponent());
    }
}

} // verus!
