use vstd::prelude::*;

verus! {

/// Failures of Merkle tree construction and queries.
#[derive(Debug, Clone, Copy, PartialEq, Eq, Structural)]
pub enum Error {
    EmptyLeaves,
    NotPowerOfTwo { len: usize },
    LeafIndexOutOfBounds { index: usize, num_leaves: usize },
    EmptyTree,
}

} // verus!
