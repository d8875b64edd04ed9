//! Binary Merkle trees over a field, with authentication paths.

use vstd::prelude::*;
use vstd::arithmetic::power2::{is_pow2, pow2};

use crate::field::{values, Field};
use crate::hash::Hasher;
use crate::util::{copy_vec, is_power_of_two};

pub mod error;
pub mod lemmas;

pub use self::error::Error;
pub use self::lemmas::lemma_auth_path_verifies;
use self::lemmas::{lemma_merkle_shape, lemma_pow2_below_bits, lemma_pow2_halves, lemma_shr_bit, lemma_sibling_index};

verus! {

/// One level up: the hash of each adjacent pair.
pub open spec fn hash_layer<H: Hasher>(layer: Seq<int>) -> Seq<int> {
    Seq::new(layer.len() / 2, |i: int| H::spec_hash(layer[2 * i], layer[2 * i + 1]))
}

/// All levels of the tree over `layer`, leaves first, root layer last.
pub open spec fn merkle_layers<H: Hasher>(layer: Seq<int>) -> Seq<Seq<int>>
    decreases layer.len(),
{
    if layer.len() <= 1 {
        seq![layer]
    } else {
        seq![layer] + merkle_layers::<H>(hash_layer::<H>(layer))
    }
}

/// The values held by a sequence of layers.
pub open spec fn layer_values<F: Field>(layers: Seq<Vec<F>>) -> Seq<Seq<int>> {
    layers.map_values(|v: Vec<F>| values(v@))
}

/// The position of the sibling, at level `d`, of the node above leaf `i`.
pub open spec fn sibling_index(i: int, d: nat) -> int {
    let k = i / pow2(d) as int;
    if k % 2 == 0 {
        k + 1
    } else {
        k - 1
    }
}

/// The authentication path of leaf `i`: its sibling at each level below the root.
pub open spec fn spec_auth_path(layers: Seq<Seq<int>>, i: int) -> Seq<int> {
    Seq::new((layers.len() - 1) as nat, |d: int| layers[d][sibling_index(i, d as nat)])
}

/// Whether leaf `i` sits on the right at level `d`.
pub open spec fn path_bit(i: int, d: nat) -> bool {
    (i / pow2(d) as int) % 2 == 1
}

/// The node obtained by hashing `leaf` up through the first `d` siblings.
pub open spec fn fold_path<H: Hasher>(siblings: Seq<int>, index: int, leaf: int, d: nat) -> int
    decreases d,
{
    if d == 0 {
        leaf
    } else {
        let cur = fold_path::<H>(siblings, index, leaf, (d - 1) as nat);
        if path_bit(index, (d - 1) as nat) {
            H::spec_hash(siblings[d - 1], cur)
        } else {
            H::spec_hash(cur, siblings[d - 1])
        }
    }
}

/// Whether hashing `leaf` up along `siblings` arrives at `root`.
pub open spec fn spec_verify_path<H: Hasher>(siblings: Seq<int>, index: int, leaf: int, root: int) -> bool {
    fold_path::<H>(siblings, index, leaf, siblings.len()) == root
}

pub struct MerkleTree<H: Hasher> {
    layers: Vec<Vec<H::F>>,
}

impl<H: Hasher> View for MerkleTree<H> {
    type V = Seq<Seq<int>>;

    closed spec fn view(&self) -> Seq<Seq<int>> {
        layer_values(self.layers@)
    }
}

impl<H: Hasher> MerkleTree<H> {
    #[verifier::type_invariant]
    spec fn well_formed(self) -> bool {
        &&& self.layers@.len() > 0
        &&& is_pow2(self@[0].len() as int)
        &&& self@ == merkle_layers::<H>(self@[0])
    }
}

fn hash_pairs<H: Hasher>(layer: &Vec<H::F>) -> (r: Vec<H::F>)
    ensures
        values(r@) == hash_layer::<H>(values(layer@)),
{
    let half = layer.len() / 2;
    let mut r: Vec<H::F> = Vec::new();
    let mut i: usize = 0;
    while i < half
        invariant
            half == layer.len() / 2,
            i <= half,
            values(r@) == hash_layer::<H>(values(layer@)).subrange(0, i as int),
        decreases half - i,
    {
        let h = H::hash_pair(layer[2 * i], layer[2 * i + 1]);
        let ghost old_r = r@;
        r.push(h);
        proof {
            let target = hash_layer::<H>(values(layer@));
            assert(target[i as int] == h@);
            assert(values(r@) =~= values(old_r).push(h@));
            assert(target.subrange(0, i + 1) =~= target.subrange(0, i as int).push(target[i as int]));
        }
        i = i + 1;
    }
    proof {
        assert(values(r@) =~= hash_layer::<H>(values(layer@)));
    }
    r
}

impl<H: Hasher> MerkleTree<H> {
    /// Builds all layers above a power-of-two number of leaves.
    pub fn build(leaves: Vec<H::F>) -> (r: Result<Self, Error>)
        ensures
            leaves@.len() == 0 ==> r == Err::<Self, Error>(Error::EmptyLeaves),
            leaves@.len() != 0 && !is_pow2(leaves@.len() as int) ==> r == Err::<Self, Error>(
                Error::NotPowerOfTwo { len: leaves@.len() as usize },
            ),
            leaves@.len() != 0 && is_pow2(leaves@.len() as int) ==> r is Ok && r->Ok_0@
                == merkle_layers::<H>(values(leaves@)),
    {
        if leaves.len() == 0 {
            return Err(Error::EmptyLeaves);
        }
        if !is_power_of_two(leaves.len()) {
            return Err(Error::NotPowerOfTwo { len: leaves.len() });
        }
        let ghost lv = values(leaves@);
        let mut layers: Vec<Vec<H::F>> = Vec::new();
        let mut cur = leaves;
        while cur.len() > 1
            invariant
                is_pow2(cur@.len() as int),
                layer_values(layers@) + merkle_layers::<H>(values(cur@)) == merkle_layers::<H>(lv),
            decreases cur@.len(),
        {
            let next = hash_pairs::<H>(&cur);
            proof {
                lemma_pow2_halves(cur@.len() as int);
                let ghost cv = values(cur@);
                assert(merkle_layers::<H>(cv) == seq![cv] + merkle_layers::<H>(values(next@)));
                assert(layer_values(layers@.push(cur)) =~= layer_values(layers@).push(cv));
                assert(layer_values(layers@).push(cv) + merkle_layers::<H>(values(next@)) =~=
                    layer_values(layers@) + (seq![cv] + merkle_layers::<H>(values(next@))));
            }
            layers.push(cur);
            cur = next;
        }
        proof {
            let ghost cv = values(cur@);
            assert(merkle_layers::<H>(cv) == seq![cv]);
            assert(layer_values(layers@.push(cur)) =~= layer_values(layers@).push(cv));
            assert(layer_values(layers@).push(cv) =~= layer_values(layers@) + seq![cv]);
        }
        layers.push(cur);
        proof {
            assert(merkle_layers::<H>(lv)[0] == lv);
            assert(layer_values(layers@)[0] == values(layers@[0]@));
        }
        Ok(MerkleTree { layers })
    }

    /// The single node of the top layer.
    pub fn root(&self) -> (r: Result<H::F, Error>)
        ensures
            r is Ok,
            r->Ok_0@ == self@.last()[0],
    {
        proof {
            use_type_invariant(self);
            lemma_merkle_shape::<H>(self@[0]);
        }
        let last = &self.layers[self.layers.len() - 1];
        proof {
            assert(values(last@) == self@.last());
        }
        Ok(last[0])
    }

    pub fn num_leaves(&self) -> (r: usize)
        ensures
            r == self@[0].len(),
    {
        proof {
            use_type_invariant(self);
            assert(values(self.layers@[0]@).len() == self.layers@[0]@.len());
        }
        self.layers[0].len()
    }

    /// The number of layers above the leaves.
    pub fn depth(&self) -> (r: usize)
        ensures
            r == self@.len() - 1,
    {
        proof {
            use_type_invariant(self);
        }
        self.layers.len() - 1
    }

    pub fn leaf(&self, index: usize) -> (r: Result<H::F, Error>)
        ensures
            index < self@[0].len() ==> r is Ok && r->Ok_0@ == self@[0][index as int],
            index >= self@[0].len() ==> r == Err::<H::F, Error>(
                Error::LeafIndexOutOfBounds { index, num_leaves: self@[0].len() as usize },
            ),
    {
        proof {
            use_type_invariant(self);
        }
        let n = self.num_leaves();
        if index < n {
            Ok(self.layers[0][index])
        } else {
            Err(Error::LeafIndexOutOfBounds { index, num_leaves: n })
        }
    }

    /// The siblings of leaf `index` from the bottom level up.
    pub fn auth_path(&self, index: usize) -> (r: Result<AuthPath<H::F>, Error>)
        ensures
            index < self@[0].len() ==> r is Ok && values(r->Ok_0@.0) == spec_auth_path(
                self@,
                index as int,
            ) && r->Ok_0@.1 == index,
            index >= self@[0].len() ==> r == Err::<AuthPath<H::F>, Error>(
                Error::LeafIndexOutOfBounds { index, num_leaves: self@[0].len() as usize },
            ),
    {
        proof {
            use_type_invariant(self);
            lemma_merkle_shape::<H>(self@[0]);
        }
        let n = self.num_leaves();
        if index >= n {
            return Err(Error::LeafIndexOutOfBounds { index, num_leaves: n });
        }
        let depth = self.depth();
        let ghost path = spec_auth_path(self@, index as int);
        let mut siblings: Vec<H::F> = Vec::new();
        let mut d: usize = 0;
        while d < depth
            invariant
                depth == self@.len() - 1,
                index < n,
                n == self@[0].len(),
                d <= depth,
                path == spec_auth_path(self@, index as int),
                values(siblings@) == path.subrange(0, d as int),
                forall|e: int| 0 <= e < self@.len() ==> self@[e].len() == n as int / (pow2(e as nat) as int),
                pow2(depth as nat) == n,
                self@ == layer_values(self.layers@),
            decreases depth - d,
        {
            proof {
                lemma_sibling_index(index as int, d as nat, n as int, depth as nat);
                lemma_pow2_below_bits(depth as nat);
                lemma_shr_bit(index, d);
                assert(values(self.layers@[d as int]@) == self@[d as int]);
            }
            let k = index >> d;
            let sib = self.layers[d][k ^ 1];
            let ghost old_s = siblings@;
            siblings.push(sib);
            proof {
                assert(values(siblings@) =~= values(old_s).push(sib@));
                assert(path[d as int] == sib@);
                assert(path.subrange(0, d + 1) =~= path.subrange(0, d as int).push(path[d as int]));
            }
            d = d + 1;
        }
        proof {
            assert(values(siblings@) =~= path);
        }
        Ok(AuthPath::new(siblings, index))
    }
}

impl<H: Hasher> Clone for MerkleTree<H> {
    fn clone(&self) -> (r: Self)
        ensures
            r@ == self@,
    {
        proof {
            use_type_invariant(self);
        }
        let mut layers: Vec<Vec<H::F>> = Vec::new();
        let mut i: usize = 0;
        while i < self.layers.len()
            invariant
                i <= self.layers@.len(),
                layer_values(layers@) == layer_values(self.layers@).subrange(0, i as int),
            decreases self.layers@.len() - i,
        {
            let layer = copy_vec(&self.layers[i]);
            let ghost old_layers = layers@;
            layers.push(layer);
            proof {
                let target = layer_values(self.layers@);
                assert(layer_values(layers@) =~= layer_values(old_layers).push(values(layer@)));
                assert(target.subrange(0, i + 1) =~= target.subrange(0, i as int).push(target[i as int]));
            }
            i = i + 1;
        }
        proof {
            assert(layer_values(layers@) =~= layer_values(self.layers@));
        }
        MerkleTree { layers }
    }
}

/// The siblings along the path from a leaf to the root.
pub struct AuthPath<F> {
    siblings: Vec<F>,
    leaf_index: usize,
}

impl<F> View for AuthPath<F> {
    type V = (Seq<F>, usize);

    closed spec fn view(&self) -> (Seq<F>, usize) {
        (self.siblings@, self.leaf_index)
    }
}

impl<F: Field> AuthPath<F> {
    pub fn new(siblings: Vec<F>, leaf_index: usize) -> (r: Self)
        ensures
            r@ == (siblings@, leaf_index),
    {
        Self { siblings, leaf_index }
    }

    pub fn siblings(&self) -> (r: &[F])
        ensures
            r@ == self@.0,
    {
        self.siblings.as_slice()
    }

    pub fn leaf_index(&self) -> (r: usize)
        ensures
            r == self@.1,
    {
        self.leaf_index
    }

    /// Hashes `leaf` up along the siblings (on the side given by the bits of
    /// the leaf index) and compares the result with `root`.
    pub fn verify<H: Hasher<F = F>>(&self, leaf: F, root: F) -> (r: bool)
        requires
            self@.0.len() <= usize::BITS,
        ensures
            r == spec_verify_path::<H>(values(self@.0), self@.1 as int, leaf@, root@),
    {
        let ghost sibs = values(self.siblings@);
        let ghost idx = self.leaf_index as int;
        let mut cur = leaf;
        let mut d: usize = 0;
        while d < self.siblings.len()
            invariant
                d <= self.siblings@.len() <= usize::BITS,
                sibs == values(self.siblings@),
                idx == self.leaf_index,
                cur@ == fold_path::<H>(sibs, idx, leaf@, d as nat),
            decreases self.siblings@.len() - d,
        {
            let sib = self.siblings[d];
            proof {
                lemma_shr_bit(self.leaf_index, d);
            }
            if (self.leaf_index >> d) & 1 == 0 {
                cur = H::hash_pair(cur, sib);
            } else {
                cur = H::hash_pair(sib, cur);
            }
            d = d + 1;
        }
        cur.equals(root)
    }

    pub fn into_siblings(self) -> (r: Vec<F>)
        ensures
            r@ == self@.0,
    {
        self.siblings
    }
}

} // verus!
