//! Finite sums of field values and how they rearrange.

use vstd::prelude::*;

use super::algebra::lemma_add_rearrange;
use super::{in_field, of_nat, Field};

verus! {

/// `f(0) + f(1) + ... + f(n - 1)`, added from zero.
pub open spec fn fsum<F: Field>(f: spec_fn(int) -> int, n: nat) -> int
    decreases n,
{
    if n == 0 {
        0
    } else {
        F::vadd(fsum::<F>(f, (n - 1) as nat), f(n - 1))
    }
}

/// A sum of field values is a field value.
pub proof fn lemma_fsum_in_field<F: Field>(f: spec_fn(int) -> int, n: nat)
    requires
        forall|k: int| 0 <= k < n ==> #[trigger] in_field::<F>(f(k)),
    ensures
        in_field::<F>(fsum::<F>(f, n)),
    decreases n,
{
    F::lemma_order();
    if n > 0 {
        lemma_fsum_in_field::<F>(f, (n - 1) as nat);
        assert(in_field::<F>(f(n - 1)));
        F::lemma_closed(fsum::<F>(f, (n - 1) as nat), f(n - 1));
    }
}

/// Sums of functions that agree below `n` agree.
pub proof fn lemma_fsum_ext<F: Field>(f: spec_fn(int) -> int, g: spec_fn(int) -> int, n: nat)
    requires
        forall|k: int| 0 <= k < n ==> #[trigger] f(k) == g(k),
    ensures
        fsum::<F>(f, n) == fsum::<F>(g, n),
    decreases n,
{
    if n > 0 {
        lemma_fsum_ext::<F>(f, g, (n - 1) as nat);
        assert(f(n - 1) == g(n - 1));
    }
}

/// The sum of pointwise sums is the sum of the sums.
pub proof fn lemma_fsum_add<F: Field>(f: spec_fn(int) -> int, g: spec_fn(int) -> int, n: nat)
    requires
        forall|k: int| 0 <= k < n ==> #[trigger] in_field::<F>(f(k)),
        forall|k: int| 0 <= k < n ==> #[trigger] in_field::<F>(g(k)),
    ensures
        fsum::<F>(|k: int| F::vadd(f(k), g(k)), n) == F::vadd(fsum::<F>(f, n), fsum::<F>(g, n)),
    decreases n,
{
    F::lemma_order();
    if n == 0 {
        F::lemma_add_laws(0, 0, 0);
    } else {
        let n1 = (n - 1) as nat;
        lemma_fsum_add::<F>(f, g, n1);
        lemma_fsum_in_field::<F>(f, n1);
        lemma_fsum_in_field::<F>(g, n1);
        assert(in_field::<F>(f(n - 1)));
        assert(in_field::<F>(g(n - 1)));
        lemma_add_rearrange::<F>(fsum::<F>(f, n1), fsum::<F>(g, n1), f(n - 1), g(n - 1));
    }
}

/// A constant factor comes out of a sum.
pub proof fn lemma_fsum_scale<F: Field>(c: int, f: spec_fn(int) -> int, n: nat)
    requires
        in_field::<F>(c),
        forall|k: int| 0 <= k < n ==> #[trigger] in_field::<F>(f(k)),
    ensures
        fsum::<F>(|k: int| F::vmul(c, f(k)), n) == F::vmul(c, fsum::<F>(f, n)),
    decreases n,
{
    F::lemma_order();
    if n == 0 {
        F::lemma_mul_laws(c, 0, 0);
    } else {
        let n1 = (n - 1) as nat;
        lemma_fsum_scale::<F>(c, f, n1);
        lemma_fsum_in_field::<F>(f, n1);
        assert(in_field::<F>(f(n - 1)));
        F::lemma_mul_laws(c, fsum::<F>(f, n1), f(n - 1));
    }
}

/// A sum with one nonzero term is that term.
pub proof fn lemma_fsum_single<F: Field>(f: spec_fn(int) -> int, n: nat, i: int)
    requires
        0 <= i < n,
        in_field::<F>(f(i)),
        forall|k: int| 0 <= k < n && k != i ==> #[trigger] f(k) == 0,
    ensures
        fsum::<F>(f, n) == f(i),
    decreases n,
{
    F::lemma_order();
    let n1 = (n - 1) as nat;
    if n - 1 > i {
        lemma_fsum_single::<F>(f, n1, i);
        assert(f(n - 1) == 0);
        F::lemma_add_laws(f(i), 0, 0);
    } else {
        lemma_fsum_zero::<F>(f, n1);
        F::lemma_add_laws(f(i), 0, 0);
        F::lemma_add_laws(0, f(i), 0);
    }
}

/// A sum of zeros is zero.
pub proof fn lemma_fsum_zero<F: Field>(f: spec_fn(int) -> int, n: nat)
    requires
        forall|k: int| 0 <= k < n ==> #[trigger] f(k) == 0,
    ensures
        fsum::<F>(f, n) == 0,
    decreases n,
{
    F::lemma_order();
    if n > 0 {
        lemma_fsum_zero::<F>(f, (n - 1) as nat);
        assert(f(n - 1) == 0);
        F::lemma_add_laws(0, 0, 0);
    }
}

/// The first `a + b` terms are the first `a` and the `b` after them.
pub proof fn lemma_fsum_split<F: Field>(f: spec_fn(int) -> int, a: nat, b: nat)
    requires
        forall|k: int| 0 <= k < a + b ==> #[trigger] in_field::<F>(f(k)),
    ensures
        fsum::<F>(f, a + b) == F::vadd(fsum::<F>(f, a), fsum::<F>(|k: int| f(a + k), b)),
    decreases b,
{
    F::lemma_order();
    lemma_fsum_in_field::<F>(f, a);
    if b == 0 {
        F::lemma_add_laws(fsum::<F>(f, a), 0, 0);
        assert(a + b == a);
    } else {
        let b1 = (b - 1) as nat;
        lemma_fsum_split::<F>(f, a, b1);
        let g = |k: int| f(a + k);
        assert forall|k: int| 0 <= k < b1 implies #[trigger] in_field::<F>(g(k)) by {
            assert(in_field::<F>(f(a + k)));
        }
        lemma_fsum_in_field::<F>(g, b1);
        assert(in_field::<F>(f((a + b1) as int)));
        assert((a + b - 1) as nat == a + b1);
        F::lemma_add_laws(fsum::<F>(f, a), fsum::<F>(g, b1), f((a + b1) as int));
    }
}

/// The order of a double sum does not matter.
pub proof fn lemma_fsum_swap<F: Field>(g: spec_fn(int, int) -> int, n1: nat, n2: nat)
    requires
        forall|j: int, k: int| 0 <= j < n2 && 0 <= k < n1 ==> #[trigger] in_field::<F>(g(j, k)),
    ensures
        fsum::<F>(|k: int| fsum::<F>(|j: int| g(j, k), n2), n1) == fsum::<F>(
            |j: int| fsum::<F>(|k: int| g(j, k), n1),
            n2,
        ),
    decreases n1,
{
    F::lemma_order();
    if n1 == 0 {
        lemma_fsum_zero::<F>(|j: int| fsum::<F>(|k: int| g(j, k), 0), n2);
    } else {
        let m = (n1 - 1) as nat;
        lemma_fsum_swap::<F>(g, m, n2);
        let inner = |j: int| fsum::<F>(|k: int| g(j, k), m);
        let last = |j: int| g(j, m as int);
        assert forall|j: int| 0 <= j < n2 implies #[trigger] in_field::<F>(inner(j)) by {
            let row = |k: int| g(j, k);
            assert forall|k: int| 0 <= k < m implies #[trigger] in_field::<F>(row(k)) by {
                assert(in_field::<F>(g(j, k)));
            }
            lemma_fsum_in_field::<F>(row, m);
        }
        assert forall|j: int| 0 <= j < n2 implies #[trigger] in_field::<F>(last(j)) by {
            assert(in_field::<F>(g(j, m as int)));
        }
        lemma_fsum_add::<F>(inner, last, n2);
        lemma_fsum_ext::<F>(
            |j: int| F::vadd(inner(j), last(j)),
            |j: int| fsum::<F>(|k: int| g(j, k), n1),
            n2,
        );
        assert(fsum::<F>(|j: int| g(j, m as int), n2) == fsum::<F>(last, n2));
    }
}

/// Adding `n` ones gives the field element `n`.
pub proof fn lemma_fsum_ones<F: Field>(n: nat)
    ensures
        fsum::<F>(|k: int| 1int, n) == of_nat::<F>(n),
    decreases n,
{
    if n > 0 {
        lemma_fsum_ones::<F>((n - 1) as nat);
    }
}

} // verus!
