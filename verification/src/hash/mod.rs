//! Two-to-one hash functions over a field, used to build Merkle trees.

use std::marker::PhantomData;
use vstd::prelude::*;

use crate::field::{vpow, Field};

pub mod griffin;
pub mod poseidon2;
pub mod tip5;

pub use self::griffin::Griffin;
pub use self::poseidon2::Poseidon2;
pub use self::tip5::Tip5;

verus! {

/// A compression function from two field elements to one.
pub trait Hasher {
    type F: Field;

    /// The hash of two canonical field values.
    spec fn spec_hash(left: int, right: int) -> int;

    /// The hash of two canonical values is a canonical value.
    proof fn lemma_hash_in_field(left: int, right: int)
        requires
            0 <= left < <Self::F as Field>::order(),
            0 <= right < <Self::F as Field>::order(),
        ensures
            0 <= Self::spec_hash(left, right) < <Self::F as Field>::order();

    fn hash_pair(left: Self::F, right: Self::F) -> (r: Self::F)
        ensures
            r@ == Self::spec_hash(left@, right@);
}

/// `(l + r)^5 + l * r`: an algebraic compression for structural testing,
/// not a cryptographic hash.
pub struct AlgebraicHash<F> {
    _marker: PhantomData<F>,
}

impl<F: Field> Hasher for AlgebraicHash<F> {
    type F = F;

    open spec fn spec_hash(left: int, right: int) -> int {
        F::vadd(vpow::<F>(F::vadd(left, right), 5), F::vmul(left, right))
    }

    proof fn lemma_hash_in_field(left: int, right: int) {
        F::lemma_closed(left, right);
        crate::field::lemma_pow_in_field::<F>(F::vadd(left, right), 5);
        F::lemma_closed(vpow::<F>(F::vadd(left, right), 5), F::vmul(left, right));
    }

    fn hash_pair(left: F, right: F) -> (r: F) {
        let sum = left.add(right);
        sum.pow(5).add(left.mul(right))
    }
}

/// Round constant `k` of a chain started at `seed`: each constant is the
/// previous one to the `alpha` plus the seed.
pub open spec fn round_constant<F: Field>(seed: int, alpha: nat, k: nat) -> int
    decreases k,
{
    if k == 0 {
        seed
    } else {
        F::vadd(F::vpow(round_constant::<F>(seed, alpha, (k - 1) as nat), alpha), seed)
    }
}

/// The first `count` round constants of the chain started at `seed`.
pub fn round_constants<F: Field>(seed: F, alpha: u64, count: usize) -> (r: Vec<F>)
    ensures
        r@.len() == count,
        forall|k: int| 0 <= k < count ==> #[trigger] r@[k]@ == round_constant::<F>(seed@, alpha as nat, k as nat),
{
    let mut r: Vec<F> = Vec::new();
    if count == 0 {
        return r;
    }
    let mut prev = seed;
    r.push(prev);
    let mut k: usize = 1;
    while k < count
        invariant
            1 <= k <= count,
            r@.len() == k,
            prev@ == round_constant::<F>(seed@, alpha as nat, (k - 1) as nat),
            forall|j: int| 0 <= j < k ==> #[trigger] r@[j]@ == round_constant::<F>(seed@, alpha as nat, j as nat),
        decreases count - k,
    {
        let next = prev.pow(alpha).add(seed);
        r.push(next);
        prev = next;
        k = k + 1;
    }
    r
}

/// The linear layer `(s + a, s + b, s + c)` with `s = a + b + c`.
pub open spec fn sum_mix<F: Field>(a: int, b: int, c: int) -> (int, int, int) {
    let s = F::vadd(F::vadd(a, b), c);
    (F::vadd(s, a), F::vadd(s, b), F::vadd(s, c))
}

/// The MDS layer shared by the sponge permutations.
pub fn mds<F: Field>(a: F, b: F, c: F) -> (r: (F, F, F))
    ensures
        (r.0@, r.1@, r.2@) == sum_mix::<F>(a@, b@, c@),
{
    let s = a.add(b).add(c);
    (s.add(a), s.add(b), s.add(c))
}

} // verus!
