//! Tip5 over Goldilocks: width 3, 5 rounds, a split S-box on the first lane.

use vstd::prelude::*;

use super::{round_constant, round_constants, sum_mix, mds, Hasher};
use crate::field::{Field, Goldilocks};

verus! {

type G = Goldilocks;

/// Round constant `k`.
pub open spec fn tip5_rc(k: nat) -> int {
    round_constant::<G>(0x1105_C0DE, 7, k)
}

/// `x^6 * x + x^2`, computed from squares.
pub open spec fn split_sbox_spec(x: int) -> int {
    let x2 = <G as Field>::vmul(x, x);
    let x4 = <G as Field>::vmul(x2, x2);
    let x6 = <G as Field>::vmul(x4, x2);
    <G as Field>::vadd(<G as Field>::vmul(x6, x), x2)
}

/// A round: add constants, the split S-box on lane 0 and `x^7` on the
/// others, then the sum mix.
pub open spec fn tip5_round(s: (int, int, int), c0: int, c1: int, c2: int) -> (int, int, int) {
    sum_mix::<G>(
        split_sbox_spec(<G as Field>::vadd(s.0, c0)),
        <G as Field>::vpow(<G as Field>::vadd(s.1, c1), 7),
        <G as Field>::vpow(<G as Field>::vadd(s.2, c2), 7),
    )
}

/// The first `r` rounds.
pub open spec fn tip5_rounds(s: (int, int, int), r: nat) -> (int, int, int)
    decreases r,
{
    if r == 0 {
        s
    } else {
        let k = (r - 1) as nat;
        tip5_round(tip5_rounds(s, k), tip5_rc(3 * k), tip5_rc(3 * k + 1), tip5_rc(3 * k + 2))
    }
}

/// Tip5 over Goldilocks; a pair hashes to the first lane of the permutation
/// of `(left, right, 0)`.
pub struct Tip5;

impl Hasher for Tip5 {
    type F = Goldilocks;

    open spec fn spec_hash(left: int, right: int) -> int {
        tip5_rounds((left, right, 0), 5).0
    }

    proof fn lemma_hash_in_field(left: int, right: int) {
    }

    fn hash_pair(left: Goldilocks, right: Goldilocks) -> (r: Goldilocks) {
        let out = permute((left, right, Goldilocks::zero()));
        out.0
    }
}

fn split_sbox(x: G) -> (r: G)
    ensures
        r@ == split_sbox_spec(x@),
{
    let x2 = x.square();
    let x4 = x2.square();
    let x6 = x4.mul(x2);
    x6.mul(x).add(x2)
}

fn round(s: (G, G, G), c0: G, c1: G, c2: G) -> (r: (G, G, G))
    ensures
        (r.0@, r.1@, r.2@) == tip5_round((s.0@, s.1@, s.2@), c0@, c1@, c2@),
{
    mds(split_sbox(s.0.add(c0)), s.1.add(c1).pow(7), s.2.add(c2).pow(7))
}

fn permute(state: (G, G, G)) -> (r: (G, G, G))
    ensures
        (r.0@, r.1@, r.2@) == tip5_rounds((state.0@, state.1@, state.2@), 5),
{
    let seed = G::from(0x1105_C0DEu64);
    proof {
        G::lemma_from_int(0x1105_C0DE, 0);
    }
    let rc = round_constants(seed, 7, 15);
    let ghost s0 = (state.0@, state.1@, state.2@);
    let mut s = state;
    let mut r: usize = 0;
    while r < 5
        invariant
            rc@.len() == 15,
            forall|k: int| 0 <= k < 15 ==> #[trigger] rc@[k]@ == tip5_rc(k as nat),
            r <= 5,
            (s.0@, s.1@, s.2@) == tip5_rounds(s0, r as nat),
        decreases 5 - r,
    {
        s = round(s, rc[r * 3], rc[r * 3 + 1], rc[r * 3 + 2]);
        r = r + 1;
    }
    s
}

} // verus!
