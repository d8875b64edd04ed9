//! Poseidon2 over BabyBear: width 3, 8 full and 22 partial rounds, `x^7`.

use vstd::prelude::*;

use super::{round_constant, round_constants, sum_mix, mds, Hasher};
use crate::field::{BabyBear, Field};

verus! {

type B = BabyBear;

/// The seed of the round-constant chain, as a field value.
pub open spec fn poseidon2_seed() -> int {
    0x5EED_C0DE
}

/// Round constant `k`.
pub open spec fn p2_rc(k: nat) -> int {
    round_constant::<B>(poseidon2_seed(), 7, k)
}

pub open spec fn p2_sbox(x: int) -> int {
    <B as Field>::vpow(x, 7)
}

/// A full round: add constants, `x^7` on every lane, then the sum mix.
pub open spec fn p2_full_round(s: (int, int, int), c0: int, c1: int, c2: int) -> (int, int, int) {
    sum_mix::<B>(
        p2_sbox(<B as Field>::vadd(s.0, c0)),
        p2_sbox(<B as Field>::vadd(s.1, c1)),
        p2_sbox(<B as Field>::vadd(s.2, c2)),
    )
}

/// The internal mix `(s + 2a, s + 3b, s + 4c)` with `s = a + b + c`.
pub open spec fn p2_internal_mix(a: int, b: int, c: int) -> (int, int, int) {
    let s = <B as Field>::vadd(<B as Field>::vadd(a, b), c);
    (
        <B as Field>::vadd(s, <B as Field>::vadd(a, a)),
        <B as Field>::vadd(s, <B as Field>::vmul(b, 3)),
        <B as Field>::vadd(s, <B as Field>::vmul(c, 4)),
    )
}

/// A partial round: a constant and `x^7` on the first lane only.
pub open spec fn p2_partial_round(s: (int, int, int), c: int) -> (int, int, int) {
    p2_internal_mix(p2_sbox(<B as Field>::vadd(s.0, c)), s.1, s.2)
}

/// `r` full rounds taking their constants from position `offset` on.
pub open spec fn p2_full_rounds(s: (int, int, int), offset: nat, r: nat) -> (int, int, int)
    decreases r,
{
    if r == 0 {
        s
    } else {
        let k = (r - 1) as nat;
        p2_full_round(
            p2_full_rounds(s, offset, k),
            p2_rc(offset + 3 * k),
            p2_rc(offset + 3 * k + 1),
            p2_rc(offset + 3 * k + 2),
        )
    }
}

/// `r` partial rounds taking their constants from position 12 on.
pub open spec fn p2_partial_rounds(s: (int, int, int), r: nat) -> (int, int, int)
    decreases r,
{
    if r == 0 {
        s
    } else {
        p2_partial_round(p2_partial_rounds(s, (r - 1) as nat), p2_rc(12 + (r - 1) as nat))
    }
}

/// The permutation: 4 full rounds, 22 partial rounds, 4 full rounds.
pub open spec fn p2_permute(s: (int, int, int)) -> (int, int, int) {
    p2_full_rounds(p2_partial_rounds(p2_full_rounds(s, 0, 4), 22), 34, 4)
}

/// Poseidon2 over BabyBear; a pair hashes to the first lane of the
/// permutation of `(left, right, 0)`.
pub struct Poseidon2;

impl Hasher for Poseidon2 {
    type F = BabyBear;

    open spec fn spec_hash(left: int, right: int) -> int {
        p2_permute((left, right, 0)).0
    }

    proof fn lemma_hash_in_field(left: int, right: int) {
    }

    fn hash_pair(left: BabyBear, right: BabyBear) -> (r: BabyBear) {
        let out = permute((left, right, BabyBear::zero()));
        out.0
    }
}

fn sbox(x: B) -> (r: B)
    ensures
        r@ == p2_sbox(x@),
{
    x.pow(7)
}

fn full_round(s: (B, B, B), c0: B, c1: B, c2: B) -> (r: (B, B, B))
    ensures
        (r.0@, r.1@, r.2@) == p2_full_round((s.0@, s.1@, s.2@), c0@, c1@, c2@),
{
    mds(sbox(s.0.add(c0)), sbox(s.1.add(c1)), sbox(s.2.add(c2)))
}

fn partial_round(s: (B, B, B), c: B) -> (r: (B, B, B))
    ensures
        (r.0@, r.1@, r.2@) == p2_partial_round((s.0@, s.1@, s.2@), c@),
{
    internal_mix((sbox(s.0.add(c)), s.1, s.2))
}

/// The mix of the partial rounds: `(s + 2a, s + 3b, s + 4c)`.
fn internal_mix(state: (B, B, B)) -> (r: (B, B, B))
    ensures
        (r.0@, r.1@, r.2@) == p2_internal_mix(state.0@, state.1@, state.2@),
{
    let (a, b, d) = state;
    let t = a.add(b).add(d);
    let three = B::from(3u32);
    let four = B::from(4u32);
    proof {
        B::lemma_from_int(0, 3);
        B::lemma_from_int(0, 4);
    }
    (t.add(a.double()), t.add(b.mul(three)), t.add(d.mul(four)))
}

fn permute(state: (B, B, B)) -> (r: (B, B, B))
    ensures
        (r.0@, r.1@, r.2@) == p2_permute((state.0@, state.1@, state.2@)),
{
    let seed = B::from(0x5EED_C0DEu32);
    proof {
        B::lemma_from_int(0, 0x5EED_C0DE);
    }
    let rc = round_constants(seed, 7, 46);
    let ghost s0 = (state.0@, state.1@, state.2@);
    let mut s = state;
    let mut r: usize = 0;
    while r < 4
        invariant
            rc@.len() == 46,
            forall|k: int| 0 <= k < 46 ==> #[trigger] rc@[k]@ == p2_rc(k as nat),
            r <= 4,
            (s.0@, s.1@, s.2@) == p2_full_rounds(s0, 0, r as nat),
        decreases 4 - r,
    {
        s = full_round(s, rc[r * 3], rc[r * 3 + 1], rc[r * 3 + 2]);
        r = r + 1;
    }
    let ghost s1 = (s.0@, s.1@, s.2@);
    let mut q: usize = 0;
    while q < 22
        invariant
            rc@.len() == 46,
            forall|k: int| 0 <= k < 46 ==> #[trigger] rc@[k]@ == p2_rc(k as nat),
            q <= 22,
            (s.0@, s.1@, s.2@) == p2_partial_rounds(s1, q as nat),
        decreases 22 - q,
    {
        s = partial_round(s, rc[12 + q]);
        q = q + 1;
    }
    let ghost s2 = (s.0@, s.1@, s.2@);
    let mut r2: usize = 0;
    while r2 < 4
        invariant
            rc@.len() == 46,
            forall|k: int| 0 <= k < 46 ==> #[trigger] rc@[k]@ == p2_rc(k as nat),
            r2 <= 4,
            (s.0@, s.1@, s.2@) == p2_full_rounds(s2, 34, r2 as nat),
        decreases 4 - r2,
    {
        s = full_round(s, rc[34 + r2 * 3], rc[34 + r2 * 3 + 1], rc[34 + r2 * 3 + 2]);
        r2 = r2 + 1;
    }
    s
}

} // verus!
