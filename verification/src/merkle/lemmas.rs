//! The shape of Merkle layers, and the bit arithmetic of leaf indices.

use vstd::prelude::*;
use vstd::arithmetic::div_mod::lemma_div_denominator;
use vstd::arithmetic::power2::{is_pow2, pow2, lemma_pow2_unfold, lemma_pow2_pos, lemma2_to64};

use super::{fold_path, hash_layer, merkle_layers, path_bit, sibling_index, spec_auth_path, spec_verify_path};
use crate::field::{all_in_field, in_field};
use crate::hash::Hasher;

verus! {

pub proof fn lemma_pow2_halves(n: int)
    requires
        is_pow2(n),
        n > 1,
    ensures
        n % 2 == 0,
        is_pow2(n / 2),
        n / 2 < n,
{
    reveal(is_pow2);
}

/// Level `e` of the tree over `n` leaves has `n / 2^e` nodes, each level
/// hashes the one below, and the top level is a single root.
#[verifier::rlimit(40)]
pub proof fn lemma_merkle_shape<H: Hasher>(l: Seq<int>)
    requires
        is_pow2(l.len() as int),
    ensures
        merkle_layers::<H>(l).len() >= 1,
        merkle_layers::<H>(l)[0] == l,
        merkle_layers::<H>(l).last().len() == 1,
        pow2((merkle_layers::<H>(l).len() - 1) as nat) == l.len(),
        forall|e: int|
            0 <= e < merkle_layers::<H>(l).len() ==> #[trigger] merkle_layers::<H>(l)[e].len()
                == (l.len() as int) / (pow2(e as nat) as int),
        forall|e: int|
            #![trigger merkle_layers::<H>(l)[e]]
            0 <= e < merkle_layers::<H>(l).len() - 1 ==> merkle_layers::<H>(l)[e + 1] == hash_layer::<H>(
                merkle_layers::<H>(l)[e],
            ),
    decreases l.len(),
{
    reveal(is_pow2);
    assert(pow2(0) == 1) by {
        lemma2_to64();
    }
    let ml = merkle_layers::<H>(l);
    let n = l.len() as int;
    if l.len() <= 1 {
        assert(ml == seq![l]);
        assert(n == 1);
        assert forall|e: int| 0 <= e < ml.len() implies #[trigger] ml[e].len() == n / (pow2(
            e as nat,
        ) as int) by {
            assert(e == 0);
            assert(1int / 1int == 1);
        }
    } else {
        let h = hash_layer::<H>(l);
        lemma_pow2_halves(n);
        lemma_merkle_shape::<H>(h);
        let mh = merkle_layers::<H>(h);
        assert(ml == seq![l] + mh);
        assert(h.len() == n / 2);
        assert forall|e: int| 0 <= e < ml.len() implies #[trigger] ml[e].len() == n / (pow2(
            e as nat,
        ) as int) by {
            if e > 0 {
                assert(ml[e] == mh[e - 1]);
                assert(0 <= e - 1 < mh.len());
                assert(mh[e - 1].len() == (n / 2) / (pow2((e - 1) as nat) as int));
                lemma_layer_len_step(n, e as nat, mh[e - 1].len() as int);
                assert(ml[e].len() == n / (pow2(e as nat) as int));
            } else {
                assert(ml[0] == l);
                assert(n / 1 == n);
                assert(ml[e].len() == n / (pow2(e as nat) as int));
            }
        }
        assert forall|e: int|
            #![trigger ml[e]]
            0 <= e < ml.len() - 1 implies ml[e + 1] == hash_layer::<H>(ml[e]) by {
            if e > 0 {
                assert(ml[e] == mh[e - 1]);
                assert(ml[e + 1] == mh[e]);
                assert(mh[(e - 1) + 1] == hash_layer::<H>(mh[e - 1]));
            } else {
                assert(ml[1] == mh[0]);
            }
        }
        lemma_pow2_unfold((ml.len() - 1) as nat);
        assert(ml.last() == mh.last());
    }
}

proof fn lemma_layer_len_step(n: int, e: nat, m: int)
    requires
        n >= 0,
        e > 0,
        m == (n / 2) / (pow2((e - 1) as nat) as int),
    ensures
        m == n / (pow2(e) as int),
{
    lemma_pow2_unfold(e);
    lemma_pow2_pos((e - 1) as nat);
    lemma_div_denominator(n, 2, pow2((e - 1) as nat) as int);
}

/// Exponents whose power of two fits in a `usize` are below its width.
pub proof fn lemma_pow2_below_bits(e: nat)
    requires
        pow2(e) <= usize::MAX,
    ensures
        e < usize::BITS,
{
    lemma2_to64();
    vstd::arithmetic::power2::lemma2_to64_rest();
    if e > usize::BITS {
        vstd::arithmetic::power2::lemma_pow2_strictly_increases(usize::BITS as nat, e);
    }
}

/// Shifting a leaf index selects its ancestor; the low bit of that ancestor
/// tells the side; flipping it names the sibling.
pub proof fn lemma_shr_bit(x: usize, d: usize)
    requires
        d < usize::BITS,
    ensures
        (x >> d) == x as int / pow2(d as nat) as int,
        (((x >> d) & 1) == 0) == !path_bit(x as int, d as nat),
        ((x >> d) ^ 1) == sibling_index(x as int, d as nat),
{
    vstd::bits::lemma_usize_shr_is_div(x, d);
    let k = x >> d;
    assert((k & 1 == 0) == (k % 2 == 0)) by (bit_vector);
    assert((k ^ 1) as int == if k % 2 == 0 { k + 1 } else { k - 1 }) by (bit_vector);
}

/// The sibling of an ancestor of a leaf exists on its level.
pub proof fn lemma_sibling_index(i: int, d: nat, n: int, depth: nat)
    requires
        0 <= i < n,
        pow2(depth) == n,
        d < depth,
    ensures
        0 <= i / (pow2(d) as int) < n / (pow2(d) as int),
        (n / (pow2(d) as int)) % 2 == 0,
        0 <= sibling_index(i, d) < n / (pow2(d) as int),
{
    lemma_pow2_pos(d);
    let q = pow2(d) as int;
    vstd::arithmetic::power2::lemma_pow2_adds(d, (depth - d) as nat);
    let m = pow2((depth - d) as nat) as int;
    assert(n == q * m);
    assert(n / q == m) by {
        vstd::arithmetic::div_mod::lemma_div_multiples_vanish(m, q);
    }
    assert(i / q < m) by {
        vstd::arithmetic::div_mod::lemma_multiply_divide_lt(i, q, m);
    }
    lemma_pow2_unfold((depth - d) as nat);
}

} // verus!

verus! {

/// Hashing leaf `i` up through its first `d` siblings reaches its ancestor
/// at level `d`.
proof fn lemma_fold_reaches_ancestor<H: Hasher>(leaves: Seq<int>, i: int, d: nat)
    requires
        is_pow2(leaves.len() as int),
        0 <= i < leaves.len(),
        d < merkle_layers::<H>(leaves).len(),
    ensures
        fold_path::<H>(spec_auth_path(merkle_layers::<H>(leaves), i), i, leaves[i], d)
            == merkle_layers::<H>(leaves)[d as int][i / (pow2(d) as int)],
    decreases d,
{
    let ml = merkle_layers::<H>(leaves);
    let sibs = spec_auth_path(ml, i);
    let n = leaves.len() as int;
    lemma_merkle_shape::<H>(leaves);
    if d == 0 {
        assert(pow2(0) == 1) by {
            lemma2_to64();
        }
        assert(i / 1 == i);
    } else {
        let e = (d - 1) as nat;
        lemma_fold_reaches_ancestor::<H>(leaves, i, e);
        let depth = (ml.len() - 1) as nat;
        lemma_sibling_index(i, e, n, depth);
        let q = pow2(e) as int;
        let k = i / q;
        lemma_pow2_pos(e);
        lemma_pow2_unfold(d);
        lemma_div_denominator(i, q, 2);
        assert(i / (pow2(d) as int) == k / 2);
        assert(ml[d as int] == hash_layer::<H>(ml[e as int]));
        assert(ml[e as int].len() == n / q);
        assert(sibs[e as int] == ml[e as int][sibling_index(i, e)]);
        if k % 2 == 1 {
            assert(path_bit(i, e));
            assert(2 * (k / 2) == k - 1);
        } else {
            assert(!path_bit(i, e));
            assert(2 * (k / 2) == k);
        }
    }
}

/// The authentication path of every leaf verifies against the root.
pub proof fn lemma_auth_path_verifies<H: Hasher>(leaves: Seq<int>, i: int)
    requires
        is_pow2(leaves.len() as int),
        0 <= i < leaves.len(),
    ensures
        spec_verify_path::<H>(
            spec_auth_path(merkle_layers::<H>(leaves), i),
            i,
            leaves[i],
            merkle_layers::<H>(leaves).last()[0],
        ),
{
    let ml = merkle_layers::<H>(leaves);
    lemma_merkle_shape::<H>(leaves);
    let depth = (ml.len() - 1) as nat;
    lemma_fold_reaches_ancestor::<H>(leaves, i, depth);
    assert(i / (pow2(depth) as int) == 0) by {
        vstd::arithmetic::div_mod::lemma_basic_div(i, pow2(depth) as int);
    }
}

} // verus!

verus! {

/// Every node of a tree over field values is a field value; in particular
/// its root.
pub proof fn lemma_merkle_root_in_field<H: Hasher>(l: Seq<int>)
    requires
        l.len() >= 1,
        all_in_field::<H::F>(l),
    ensures
        in_field::<H::F>(merkle_layers::<H>(l).last()[0]),
    decreases l.len(),
{
    if l.len() <= 1 {
        assert(merkle_layers::<H>(l) == seq![l]);
        assert(in_field::<H::F>(l[0]));
    } else {
        let h = hash_layer::<H>(l);
        assert forall|i: int| 0 <= i < h.len() implies #[trigger] in_field::<H::F>(h[i]) by {
            assert(in_field::<H::F>(l[2 * i]));
            assert(in_field::<H::F>(l[2 * i + 1]));
            H::lemma_hash_in_field(l[2 * i], l[2 * i + 1]);
        }
        lemma_merkle_root_in_field::<H>(h);
        let mh = merkle_layers::<H>(h);
        assert(mh.len() >= 1);
        assert(merkle_layers::<H>(l) == seq![l] + mh);
        assert(merkle_layers::<H>(l).last() == mh.last());
    }
}

} // verus!
