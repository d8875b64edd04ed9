//! Arithmetic modulo an integer `p > 1`: the laws shared by the prime fields.

use vstd::prelude::*;
use vstd::arithmetic::div_mod::*;
use vstd::arithmetic::mul::*;

verus! {

pub open spec fn mod_add(x: int, y: int, p: int) -> int {
    (x + y) % p
}

pub open spec fn mod_sub(x: int, y: int, p: int) -> int {
    (x + p - y) % p
}

pub open spec fn mod_mul(x: int, y: int, p: int) -> int {
    (x * y) % p
}

pub open spec fn mod_neg(x: int, p: int) -> int {
    (p - x) % p
}

pub proof fn lemma_mod_closed(x: int, y: int, p: int)
    requires
        p > 1,
        0 <= x < p,
        0 <= y < p,
    ensures
        0 <= mod_add(x, y, p) < p,
        0 <= mod_sub(x, y, p) < p,
        0 <= mod_mul(x, y, p) < p,
        0 <= mod_neg(x, p) < p,
{
    lemma_mod_bound(x + y, p);
    lemma_mod_bound(x + p - y, p);
    lemma_mod_bound(x * y, p);
    lemma_mod_bound(p - x, p);
}

pub proof fn lemma_mod_add_laws(x: int, y: int, z: int, p: int)
    requires
        p > 1,
        0 <= x < p,
        0 <= y < p,
        0 <= z < p,
    ensures
        mod_add(x, y, p) == mod_add(y, x, p),
        mod_add(mod_add(x, y, p), z, p) == mod_add(x, mod_add(y, z, p), p),
        mod_add(x, 0, p) == x,
        mod_add(x, mod_neg(x, p), p) == 0,
        mod_neg(mod_neg(x, p), p) == x,
        mod_sub(x, y, p) == mod_add(x, mod_neg(y, p), p),
{
    lemma_small_mod(x as nat, p as nat);
    lemma_small_mod(z as nat, p as nat);
    lemma_add_mod_noop(x + y, z, p);
    lemma_add_mod_noop(x, y + z, p);
    lemma_mod_twice(x + y, p);
    lemma_mod_twice(y + z, p);
    assert(mod_add(mod_add(x, y, p), z, p) == (x + y + z) % p) by {
        lemma_add_mod_noop(x + y, z, p);
    }
    assert(mod_add(x, mod_add(y, z, p), p) == (x + y + z) % p) by {
        lemma_add_mod_noop(x, y + z, p);
    }
    if x == 0 {
        lemma_mod_self_0(p);
        assert(mod_neg(x, p) == 0);
        lemma_small_mod(0, p as nat);
    } else {
        lemma_small_mod((p - x) as nat, p as nat);
        lemma_mod_self_0(p);
        lemma_small_mod(x as nat, p as nat);
    }
    if y == 0 {
        lemma_mod_self_0(p);
        lemma_mod_add_multiples_vanish(x, p);
    } else {
        lemma_small_mod((p - y) as nat, p as nat);
    }
}

pub proof fn lemma_mod_mul_laws(x: int, y: int, z: int, p: int)
    requires
        p > 1,
        0 <= x < p,
        0 <= y < p,
        0 <= z < p,
    ensures
        mod_mul(x, y, p) == mod_mul(y, x, p),
        mod_mul(mod_mul(x, y, p), z, p) == mod_mul(x, mod_mul(y, z, p), p),
        mod_mul(x, 1, p) == x,
        mod_mul(x, 0, p) == 0,
        mod_mul(x, mod_add(y, z, p), p) == mod_add(mod_mul(x, y, p), mod_mul(x, z, p), p),
{
    lemma_mul_is_commutative(x, y);
    lemma_small_mod(x as nat, p as nat);
    lemma_small_mod(0, p as nat);
    assert(mod_mul(mod_mul(x, y, p), z, p) == (x * y * z) % p) by {
        lemma_mul_mod_noop_left(x * y, z, p);
    }
    assert(mod_mul(x, mod_mul(y, z, p), p) == (x * (y * z)) % p) by {
        lemma_mul_mod_noop_right(x, y * z, p);
    }
    lemma_mul_is_associative(x, y, z);
    assert(mod_mul(x, mod_add(y, z, p), p) == (x * (y + z)) % p) by {
        lemma_mul_mod_noop_right(x, y + z, p);
    }
    lemma_mul_is_distributive_add(x, y, z);
    lemma_add_mod_noop(x * y, x * z, p);
}

} // verus!

verus! {

pub open spec fn mod_pow(x: int, n: nat, p: int) -> int
    decreases n,
{
    if n == 0 {
        1
    } else {
        mod_mul(x, mod_pow(x, (n - 1) as nat, p), p)
    }
}

} // verus!

verus! {

pub proof fn lemma_mod_pow_in_range(x: int, n: nat, p: int)
    requires
        p > 1,
        0 <= x < p,
    ensures
        0 <= mod_pow(x, n, p) < p,
    decreases n,
{
    if n > 0 {
        lemma_mod_pow_in_range(x, (n - 1) as nat, p);
        lemma_mod_closed(x, mod_pow(x, (n - 1) as nat, p), p);
    }
}

/// `x^(a + b) == x^a * x^b` modulo `p`.
pub proof fn lemma_mod_pow_add(x: int, a: nat, b: nat, p: int)
    requires
        p > 1,
        0 <= x < p,
    ensures
        mod_pow(x, a + b, p) == mod_mul(mod_pow(x, a, p), mod_pow(x, b, p), p),
    decreases a,
{
    lemma_mod_pow_in_range(x, b, p);
    if a == 0 {
        lemma_mod_mul_laws(mod_pow(x, b, p), 1, 0, p);
        assert(mod_pow(x, 0, p) == 1);
    } else {
        let a1 = (a - 1) as nat;
        lemma_mod_pow_add(x, a1, b, p);
        lemma_mod_pow_in_range(x, a1, p);
        lemma_mod_mul_laws(x, mod_pow(x, a1, p), mod_pow(x, b, p), p);
        assert((a1 + b) + 1 == a + b);
        assert(mod_pow(x, a + b, p) == mod_mul(x, mod_pow(x, (a + b - 1) as nat, p), p));
    }
}

/// The exponent bits of `exp` above position `i`, or 0 past the top bit.
pub open spec fn shr_or_zero(exp: u64, i: u32) -> nat {
    if i >= 64 {
        0
    } else {
        (exp >> (i as u64)) as nat
    }
}

pub proof fn lemma_shr_step(exp: u64, i: u32)
    requires
        i < 64,
    ensures
        shr_or_zero(exp, i) == 2 * shr_or_zero(exp, (i + 1) as u32) + ((exp >> (i as u64)) & 1),
        ((exp >> (i as u64)) & 1) == 0 || ((exp >> (i as u64)) & 1) == 1,
{
    let ii = i as u64;
    if i == 63 {
        assert((exp >> 63u64) == ((exp >> 63u64) & 1)) by (bit_vector);
    } else {
        let j = (i + 1) as u64;
        assert(ii < 63 && j == ii + 1 ==> (exp >> ii) == 2 * (exp >> j) + ((exp >> ii) & 1))
            by (bit_vector);
    }
    assert(((exp >> ii) & 1) == 0 || ((exp >> ii) & 1) == 1) by (bit_vector);
}

pub proof fn lemma_shr_zero(exp: u64)
    ensures
        shr_or_zero(exp, 0) == exp as nat,
{
    assert(exp >> 0u64 == exp) by (bit_vector);
}

/// One square-and-multiply step: from `acc == x^k` to `x^(2k + bit)`.
pub proof fn lemma_mod_pow_step(x: int, k: nat, bit: nat, p: int)
    requires
        p > 1,
        0 <= x < p,
        bit == 0 || bit == 1,
    ensures
        bit == 0 ==> mod_pow(x, 2 * k + bit, p) == mod_mul(mod_pow(x, k, p), mod_pow(x, k, p), p),
        bit == 1 ==> mod_pow(x, 2 * k + bit, p)
            == mod_mul(mod_mul(mod_pow(x, k, p), mod_pow(x, k, p), p), x, p),
{
    lemma_mod_pow_add(x, k, k, p);
    lemma_mod_pow_add(x, k + k, 1, p);
    lemma_mod_mul_laws(x, 1, 0, p);
    assert(mod_pow(x, 1, p) == mod_mul(x, mod_pow(x, 0, p), p));
}

} // verus!

verus! {

/// A value below `2p` is reduced by at most one subtraction.
pub proof fn lemma_reduce_once(v: int, p: int)
    requires
        p > 0,
        0 <= v < 2 * p,
    ensures
        v >= p ==> v % p == v - p,
        v < p ==> v % p == v,
{
    if v >= p {
        vstd::arithmetic::div_mod::lemma_mod_add_multiples_vanish(v - p, p);
        vstd::arithmetic::div_mod::lemma_small_mod((v - p) as nat, p as nat);
    } else {
        vstd::arithmetic::div_mod::lemma_small_mod(v as nat, p as nat);
    }
}

} // verus!
