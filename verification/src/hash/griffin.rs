//! Griffin over BabyBear: width 3, 12 rounds, `x^7` and its inverse map.

use vstd::prelude::*;

use super::{round_constant, round_constants, Hasher};
use crate::field::{BabyBear, Field};

verus! {

type B = BabyBear;

/// The exponent inverse to 7 modulo `p - 1`.
pub const ALPHA_INV: u64 = 1_725_656_503;

/// Round constant `k`.
pub open spec fn griffin_rc(k: nat) -> int {
    round_constant::<B>(0x6F1F_F100, 7, k)
}

/// A round: `y0 = (s0 + c0)^7`, `y1 = (s1 + c1)^(1/7)`, `y2 = s2 + c2`,
/// then each lane plus `y0 + y1 + y2`.
pub open spec fn griffin_round(s: (int, int, int), c0: int, c1: int, c2: int) -> (int, int, int) {
    let y0 = <B as Field>::vpow(<B as Field>::vadd(s.0, c0), 7);
    let y1 = <B as Field>::vpow(<B as Field>::vadd(s.1, c1), ALPHA_INV as nat);
    let y2 = <B as Field>::vadd(s.2, c2);
    let l = <B as Field>::vadd(<B as Field>::vadd(y0, y1), y2);
    (<B as Field>::vadd(y0, l), <B as Field>::vadd(y1, l), <B as Field>::vadd(y2, l))
}

/// The first `r` rounds.
pub open spec fn griffin_rounds(s: (int, int, int), r: nat) -> (int, int, int)
    decreases r,
{
    if r == 0 {
        s
    } else {
        let k = (r - 1) as nat;
        griffin_round(griffin_rounds(s, k), griffin_rc(3 * k), griffin_rc(3 * k + 1), griffin_rc(3 * k + 2))
    }
}

/// Griffin over BabyBear; a pair hashes to the first lane of the
/// permutation of `(left, right, 0)`.
pub struct Griffin;

impl Hasher for Griffin {
    type F = BabyBear;

    open spec fn spec_hash(left: int, right: int) -> int {
        griffin_rounds((left, right, 0), 12).0
    }

    proof fn lemma_hash_in_field(left: int, right: int) {
    }

    fn hash_pair(left: BabyBear, right: BabyBear) -> (r: BabyBear) {
        let out = permute((left, right, BabyBear::zero()));
        out.0
    }
}

fn round(s: (B, B, B), c0: B, c1: B, c2: B) -> (r: (B, B, B))
    ensures
        (r.0@, r.1@, r.2@) == griffin_round((s.0@, s.1@, s.2@), c0@, c1@, c2@),
{
    let y0 = s.0.add(c0).pow(7);
    let y1 = s.1.add(c1).pow(ALPHA_INV);
    let y2 = s.2.add(c2);
    let l = y0.add(y1).add(y2);
    (y0.add(l), y1.add(l), y2.add(l))
}

fn permute(state: (B, B, B)) -> (r: (B, B, B))
    ensures
        (r.0@, r.1@, r.2@) == griffin_rounds((state.0@, state.1@, state.2@), 12),
{
    let seed = B::from(0x6F1F_F100u32);
    proof {
        B::lemma_from_int(0, 0x6F1F_F100);
    }
    let rc = round_constants(seed, 7, 36);
    let ghost s0 = (state.0@, state.1@, state.2@);
    let mut s = state;
    let mut r: usize = 0;
    while r < 12
        invariant
            rc@.len() == 36,
            forall|k: int| 0 <= k < 36 ==> #[trigger] rc@[k]@ == griffin_rc(k as nat),
            r <= 12,
            (s.0@, s.1@, s.2@) == griffin_rounds(s0, r as nat),
        decreases 12 - r,
    {
        s = round(s, rc[r * 3], rc[r * 3 + 1], rc[r * 3 + 2]);
        r = r + 1;
    }
    s
}

} // verus!
