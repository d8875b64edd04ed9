//! GF(2^8) with the AES polynomial `x^8 + x^4 + x^3 + x + 1`: addition is
//! exclusive or and multiplication the carry-less product reduced modulo
//! the polynomial.

use vstd::prelude::*;
use vstd::arithmetic::power2::{lemma2_to64, lemma_pow2_unfold, pow2};

use super::error::Error;
use super::modp::{lemma_shr_step, lemma_shr_zero, shr_or_zero};
use super::Field;

verus! {

/// The reduction polynomial `x^8 + x^4 + x^3 + x + 1`.
pub const IRREDUCIBLE: u16 = 0x11B;

/// `a * x^i` when bit `i` of `b` is set, else zero.
pub open spec fn clmul_term(a: u16, b: u16, i: u16) -> u16 {
    if (b >> i) & 1u16 == 1u16 {
        a << i
    } else {
        0u16
    }
}

/// The carry-less product over the first `k` bits of `b`.
pub open spec fn clmul_prefix(a: u16, b: u16, k: nat) -> u16
    decreases k,
{
    if k == 0 {
        0u16
    } else {
        clmul_prefix(a, b, (k - 1) as nat) ^ clmul_term(a, b, (k - 1) as u16)
    }
}

/// The carry-less product of two bytes.
pub open spec fn clmul(a: u16, b: u16) -> u16 {
    clmul_prefix(a, b, 8)
}

/// Clears bit `i` (from 8 to 15) by adding the shifted polynomial.
pub open spec fn reduce_step(v: u16, i: u16) -> u16 {
    if (v >> i) & 1u16 == 1u16 {
        v ^ (IRREDUCIBLE << ((i - 8) as u16))
    } else {
        v
    }
}

/// The first `k` reduction steps, from bit 15 down.
pub open spec fn reduce_from(v: u16, k: nat) -> u16
    decreases k,
{
    if k == 0 {
        v
    } else {
        reduce_step(reduce_from(v, (k - 1) as nat), (16 - k) as u16)
    }
}

/// Reduction of a carry-less product modulo the polynomial.
pub open spec fn poly_reduce(v: u16) -> u16 {
    reduce_from(v, 8)
}

/// The product in GF(2^8).
pub open spec fn gf_mul(a: u16, b: u16) -> u16 {
    poly_reduce(clmul(a, b))
}

proof fn lemma_xor_swap(p1: u16, p2: u16, t1: u16, t2: u16)
    ensures
        (p1 ^ p2) ^ (t1 ^ t2) == (p1 ^ t1) ^ (p2 ^ t2),
{
    assert((p1 ^ p2) ^ (t1 ^ t2) == (p1 ^ t1) ^ (p2 ^ t2)) by (bit_vector);
}

proof fn lemma_term_linear(a: u16, a2: u16, b: u16, c: u16, i: u16)
    requires
        i < 8,
    ensures
        clmul_term(a, b ^ c, i) == clmul_term(a, b, i) ^ clmul_term(a, c, i),
        clmul_term(a ^ a2, b, i) == clmul_term(a, b, i) ^ clmul_term(a2, b, i),
{
    assert(clmul_term(a, b ^ c, i) == clmul_term(a, b, i) ^ clmul_term(a, c, i) && clmul_term(a ^ a2, b, i)
        == clmul_term(a, b, i) ^ clmul_term(a2, b, i)) by (bit_vector)
        requires
            i < 8,
    ;
}

proof fn lemma_clmul_prefix_linear(a: u16, a2: u16, b: u16, c: u16, k: nat)
    requires
        k <= 8,
    ensures
        clmul_prefix(a, b ^ c, k) == clmul_prefix(a, b, k) ^ clmul_prefix(a, c, k),
        clmul_prefix(a ^ a2, b, k) == clmul_prefix(a, b, k) ^ clmul_prefix(a2, b, k),
    decreases k,
{
    if k == 0 {
        lemma_xor_self_zero(0u16);
    } else {
        lemma_clmul_prefix_linear(a, a2, b, c, (k - 1) as nat);
        lemma_term_linear(a, a2, b, c, (k - 1) as u16);
        lemma_xor_swap(
            clmul_prefix(a, b, (k - 1) as nat),
            clmul_prefix(a, c, (k - 1) as nat),
            clmul_term(a, b, (k - 1) as u16),
            clmul_term(a, c, (k - 1) as u16),
        );
        lemma_xor_swap(
            clmul_prefix(a, b, (k - 1) as nat),
            clmul_prefix(a2, b, (k - 1) as nat),
            clmul_term(a, b, (k - 1) as u16),
            clmul_term(a2, b, (k - 1) as u16),
        );
    }
}

proof fn lemma_reduce_step_linear(u: u16, v: u16, i: u16)
    requires
        8 <= i < 16,
    ensures
        reduce_step(u ^ v, i) == reduce_step(u, i) ^ reduce_step(v, i),
{
    assert(reduce_step(u ^ v, i) == reduce_step(u, i) ^ reduce_step(v, i)) by (bit_vector)
        requires
            8 <= i < 16,
    ;
}

proof fn lemma_reduce_from_linear(u: u16, v: u16, k: nat)
    requires
        k <= 8,
    ensures
        reduce_from(u ^ v, k) == reduce_from(u, k) ^ reduce_from(v, k),
    decreases k,
{
    if k > 0 {
        lemma_reduce_from_linear(u, v, (k - 1) as nat);
        lemma_reduce_step_linear(reduce_from(u, (k - 1) as nat), reduce_from(v, (k - 1) as nat), (16 - k) as u16);
    }
}

/// The product distributes over addition on both sides.
pub proof fn lemma_gf_mul_linear(a: u16, a2: u16, b: u16, c: u16)
    ensures
        gf_mul(a, b ^ c) == gf_mul(a, b) ^ gf_mul(a, c),
        gf_mul(a ^ a2, b) == gf_mul(a, b) ^ gf_mul(a2, b),
{
    lemma_clmul_prefix_linear(a, a2, b, c, 8);
    lemma_reduce_from_linear(clmul(a, b), clmul(a, c), 8);
    lemma_reduce_from_linear(clmul(a, b), clmul(a2, b), 8);
}

/// The low `m` bits of `x`.
pub open spec fn low_bits(x: u16, m: u16) -> u16 {
    x & (((1u16 << m) as u16 - 1u16) as u16)
}

proof fn lemma_low_bits_step(x: u16, m: u16)
    requires
        m < 8,
        x < 256,
    ensures
        low_bits(x, (m + 1) as u16) == low_bits(x, m) ^ (x & (1u16 << m)),
        (x & (1u16 << m)) == 0u16 || (x & (1u16 << m)) == (1u16 << m),
        low_bits(x, m) < 256,
        (x & (1u16 << m)) < 256,
{
    assert(low_bits(x, (m + 1) as u16) == low_bits(x, m) ^ (x & (1u16 << m)) && ((x & (1u16 << m)) == 0u16 || (x & (
    1u16 << m)) == (1u16 << m)) && low_bits(x, m) < 256 && (x & (1u16 << m)) < 256) by (bit_vector)
        requires
            m < 8,
            x < 256,
    ;
}

proof fn lemma_xor_self_zero(z: u16)
    ensures
        0u16 ^ 0u16 == 0u16,
        z == z ^ z ==> z == 0u16,
{
    assert(0u16 ^ 0u16 == 0u16 && (z == z ^ z ==> z == 0u16)) by (bit_vector);
}

proof fn lemma_zero_of_linear(f: spec_fn(u16) -> u16)
    requires
        forall|u: u16, v: u16| u < 256 && v < 256 ==> #[trigger] f(u ^ v) == f(u) ^ f(v),
    ensures
        f(0u16) == 0u16,
{
    assert(f(0u16 ^ 0u16) == f(0u16) ^ f(0u16));
    lemma_xor_self_zero(f(0u16));
}

proof fn lemma_linear_ext_upto(f: spec_fn(u16) -> u16, g: spec_fn(u16) -> u16, x: u16, m: u16)
    requires
        x < 256,
        forall|u: u16, v: u16| u < 256 && v < 256 ==> #[trigger] f(u ^ v) == f(u) ^ f(v),
        forall|u: u16, v: u16| u < 256 && v < 256 ==> #[trigger] g(u ^ v) == g(u) ^ g(v),
        forall|k: u16| k < 8 ==> #[trigger] f(1u16 << k) == g(1u16 << k),
        m <= 8,
    ensures
        f(low_bits(x, m)) == g(low_bits(x, m)),
    decreases m,
{
    if m == 0 {
        assert(low_bits(x, 0) == 0u16) by (bit_vector);
        lemma_zero_of_linear(f);
        lemma_zero_of_linear(g);
    } else {
        let m1 = (m - 1) as u16;
        lemma_linear_ext_upto(f, g, x, m1);
        lemma_low_bits_step(x, m1);
        assert((m1 + 1) as u16 == m);
        let lo = low_bits(x, m1);
        let bit = x & (1u16 << m1);
        assert(f(lo ^ bit) == f(lo) ^ f(bit));
        assert(g(lo ^ bit) == g(lo) ^ g(bit));
        if bit == 0u16 {
            lemma_zero_of_linear(f);
            lemma_zero_of_linear(g);
        } else {
            assert(f(1u16 << m1) == g(1u16 << m1));
        }
    }
}

/// A function that distributes over exclusive or on bytes is fixed by its
/// values on the eight single-bit bytes: two such functions that agree there
/// agree on every byte.
pub proof fn lemma_linear_ext(f: spec_fn(u16) -> u16, g: spec_fn(u16) -> u16, x: u16)
    requires
        forall|u: u16, v: u16| u < 256 && v < 256 ==> #[trigger] f(u ^ v) == f(u) ^ f(v),
        forall|u: u16, v: u16| u < 256 && v < 256 ==> #[trigger] g(u ^ v) == g(u) ^ g(v),
        forall|k: u16| k < 8 ==> #[trigger] f(1u16 << k) == g(1u16 << k),
        x < 256,
    ensures
        f(x) == g(x),
{
    lemma_linear_ext_upto(f, g, x, 8);
    assert(low_bits(x, 8) == x) by (bit_vector)
        requires x < 256;
}

/// The single-bit bytes commute.
proof fn lemma_basis_comm()
    ensures
        forall|i: u16, j: u16| i < 8 && j < 8 ==> #[trigger] gf_mul(1u16 << i, 1u16 << j) == gf_mul(1u16 << j, 1u16 << i),
{
    assert(forall|i: u16, j: u16| i < 8 && j < 8 ==> #[trigger] gf_mul(1u16 << i, 1u16 << j) == gf_mul(1u16 << j, 1u16 << i)) by (bit_vector);
}

/// Multiplication by `x`: shift left, reducing when bit 7 was set.
pub open spec fn xtime(v: u16) -> u16 {
    if v & 0x80u16 != 0u16 {
        ((v << 1u16) ^ IRREDUCIBLE) as u16
    } else {
        (v << 1u16) as u16
    }
}

/// Multiplication by `x^k`.
pub open spec fn xtime_pow(v: u16, k: nat) -> u16
    decreases k,
{
    if k == 0 {
        v
    } else {
        xtime(xtime_pow(v, (k - 1) as nat))
    }
}

proof fn lemma_xtime_facts(u: u16, v: u16)
    ensures
        xtime(u ^ v) == xtime(u) ^ xtime(v),
        u < 256 ==> xtime(u) < 256,
{
    assert(xtime(u ^ v) == xtime(u) ^ xtime(v) && (u < 256 ==> xtime(u) < 256)) by (bit_vector);
}

proof fn lemma_xtime_pow_facts(u: u16, v: u16, k: nat)
    ensures
        xtime_pow(u ^ v, k) == xtime_pow(u, k) ^ xtime_pow(v, k),
        u < 256 ==> xtime_pow(u, k) < 256,
        xtime_pow(xtime(u), k) == xtime(xtime_pow(u, k)),
    decreases k,
{
    if k > 0 {
        lemma_xtime_pow_facts(u, v, (k - 1) as nat);
        lemma_xtime_facts(xtime_pow(u, (k - 1) as nat), xtime_pow(v, (k - 1) as nat));
    }
}

/// Multiplying by `x^k` is `k` multiplications by `x`.
proof fn lemma_mul_single_bit(a: u16, k: u16)
    requires
        a < 256,
        k < 8,
    ensures
        gf_mul(a, 1u16 << k) == xtime_pow(a, k as nat),
{
    if k == 0 {
        assert(a < 256 ==> gf_mul(a, 1u16 << 0u16) == xtime_pow(a, 0)) by (bit_vector);
    } else if k == 1 {
        assert(a < 256 ==> gf_mul(a, 1u16 << 1u16) == xtime_pow(a, 1)) by (bit_vector);
    } else if k == 2 {
        assert(a < 256 ==> gf_mul(a, 1u16 << 2u16) == xtime_pow(a, 2)) by (bit_vector);
    } else if k == 3 {
        assert(a < 256 ==> gf_mul(a, 1u16 << 3u16) == xtime_pow(a, 3)) by (bit_vector);
    } else if k == 4 {
        assert(a < 256 ==> gf_mul(a, 1u16 << 4u16) == xtime_pow(a, 4)) by (bit_vector);
    } else if k == 5 {
        assert(a < 256 ==> gf_mul(a, 1u16 << 5u16) == xtime_pow(a, 5)) by (bit_vector);
    } else if k == 6 {
        assert(a < 256 ==> gf_mul(a, 1u16 << 6u16) == xtime_pow(a, 6)) by (bit_vector);
    } else {
        assert(a < 256 ==> gf_mul(a, 1u16 << 7u16) == xtime_pow(a, 7)) by (bit_vector);
    }
}


/// The single-bit bytes are bytes, and the first is one.
proof fn lemma_basis_bytes()
    ensures
        forall|k: u16| k < 8 ==> #[trigger] (1u16 << k) < 256,
        (1u16 << 0u16) == 1u16,
{
    assert((forall|k: u16| k < 8 ==> #[trigger] (1u16 << k) < 256) && (1u16 << 0u16) == 1u16) by (bit_vector);
}

/// A product of bytes is a byte.
pub proof fn lemma_gf_mul_byte(a: u16, b: u16)
    requires
        a < 256,
        b < 256,
    ensures
        gf_mul(a, b) < 256,
{
    assert(a < 256 && b < 256 ==> gf_mul(a, b) < 256) by (bit_vector);
}

/// Multiplication in GF(2^8) is commutative.
pub proof fn lemma_gf_mul_comm(a: u16, b: u16)
    requires
        a < 256,
        b < 256,
    ensures
        gf_mul(a, b) == gf_mul(b, a),
{
    lemma_basis_comm();
    lemma_basis_bytes();
    assert forall|j: u16| j < 8 implies #[trigger] gf_mul(a, 1u16 << j) == gf_mul(1u16 << j, a) by {
        let e = 1u16 << j;
        let f = |x: u16| gf_mul(x, e);
        let g = |x: u16| gf_mul(e, x);
        assert forall|u: u16, v: u16| #[trigger] f(u ^ v) == f(u) ^ f(v) by {
            lemma_gf_mul_linear(u, v, e, 0u16);
        }
        assert forall|u: u16, v: u16| #[trigger] g(u ^ v) == g(u) ^ g(v) by {
            lemma_gf_mul_linear(e, 0u16, u, v);
        }
        assert forall|k: u16| k < 8 implies #[trigger] f(1u16 << k) == g(1u16 << k) by {
            assert(gf_mul(1u16 << k, 1u16 << j) == gf_mul(1u16 << j, 1u16 << k));
        }
        lemma_linear_ext(f, g, a);
    }
    let f = |x: u16| gf_mul(a, x);
    let g = |x: u16| gf_mul(x, a);
    assert forall|u: u16, v: u16| #[trigger] f(u ^ v) == f(u) ^ f(v) by {
        lemma_gf_mul_linear(a, 0u16, u, v);
    }
    assert forall|u: u16, v: u16| #[trigger] g(u ^ v) == g(u) ^ g(v) by {
        lemma_gf_mul_linear(u, v, a, 0u16);
    }
    assert forall|k: u16| k < 8 implies #[trigger] f(1u16 << k) == g(1u16 << k) by {
        assert(gf_mul(a, 1u16 << k) == gf_mul(1u16 << k, a));
    }
    lemma_linear_ext(f, g, b);
}

/// Multiplying a product by `x` is multiplying its second factor by `x`.
proof fn lemma_xtime_mul(a: u16, b: u16)
    requires
        a < 256,
        b < 256,
    ensures
        xtime(gf_mul(a, b)) == gf_mul(a, xtime(b)),
{
    lemma_basis_bytes();
    lemma_xtime_facts(b, 0u16);
    let xb = xtime(b);
    let f = |x: u16| xtime(gf_mul(x, b));
    let g = |x: u16| gf_mul(x, xb);
    assert forall|u: u16, v: u16| #[trigger] f(u ^ v) == f(u) ^ f(v) by {
        lemma_gf_mul_linear(u, v, b, 0u16);
        lemma_xtime_facts(gf_mul(u, b), gf_mul(v, b));
    }
    assert forall|u: u16, v: u16| #[trigger] g(u ^ v) == g(u) ^ g(v) by {
        lemma_gf_mul_linear(u, v, xb, 0u16);
    }
    assert forall|k: u16| k < 8 implies #[trigger] f(1u16 << k) == g(1u16 << k) by {
        let e = 1u16 << k;
        lemma_gf_mul_comm(e, b);
        lemma_gf_mul_comm(e, xb);
        lemma_mul_single_bit(b, k);
        lemma_mul_single_bit(xb, k);
        lemma_xtime_pow_facts(b, 0u16, k as nat);
    }
    lemma_linear_ext(f, g, a);
}

/// Multiplying a product by `x^k` is multiplying its second factor by `x^k`.
proof fn lemma_xtime_pow_mul(a: u16, b: u16, k: nat)
    requires
        a < 256,
        b < 256,
    ensures
        xtime_pow(gf_mul(a, b), k) == gf_mul(a, xtime_pow(b, k)),
    decreases k,
{
    if k > 0 {
        let k1 = (k - 1) as nat;
        lemma_xtime_pow_mul(a, b, k1);
        lemma_xtime_pow_facts(b, 0u16, k1);
        lemma_xtime_mul(a, xtime_pow(b, k1));
    }
}

/// Multiplication in GF(2^8) is associative.
pub proof fn lemma_gf_mul_assoc(a: u16, b: u16, c: u16)
    requires
        a < 256,
        b < 256,
        c < 256,
    ensures
        gf_mul(gf_mul(a, b), c) == gf_mul(a, gf_mul(b, c)),
{
    lemma_basis_bytes();
    lemma_gf_mul_byte(a, b);
    let ab = gf_mul(a, b);
    let f = |x: u16| gf_mul(ab, x);
    let g = |x: u16| gf_mul(a, gf_mul(b, x));
    assert forall|u: u16, v: u16| #[trigger] f(u ^ v) == f(u) ^ f(v) by {
        lemma_gf_mul_linear(ab, 0u16, u, v);
    }
    assert forall|u: u16, v: u16| #[trigger] g(u ^ v) == g(u) ^ g(v) by {
        lemma_gf_mul_linear(b, 0u16, u, v);
        lemma_gf_mul_linear(a, 0u16, gf_mul(b, u), gf_mul(b, v));
    }
    assert forall|k: u16| k < 8 implies #[trigger] f(1u16 << k) == g(1u16 << k) by {
        lemma_mul_single_bit(ab, k);
        lemma_mul_single_bit(b, k);
        lemma_xtime_pow_mul(a, b, k as nat);
    }
    lemma_linear_ext(f, g, c);
}

/// One is the identity and zero absorbs.
pub proof fn lemma_gf_mul_one_zero(a: u16)
    requires
        a < 256,
    ensures
        gf_mul(a, 1u16) == a,
        gf_mul(a, 0u16) == 0u16,
{
    lemma_basis_bytes();
    lemma_mul_single_bit(a, 0u16);
    lemma_gf_mul_linear(a, 0u16, 0u16, 0u16);
    lemma_xor_self_zero(gf_mul(a, 0u16));
}

} // verus!

verus! {

/// Exclusive or of two byte values.
pub open spec fn bin_add(x: int, y: int) -> int {
    ((x as u16) ^ (y as u16)) as int
}

/// The GF(2^8) product of two byte values.
pub open spec fn bin_mul(x: int, y: int) -> int {
    gf_mul(x as u16, y as u16) as int
}

/// `x^n` in GF(2^8).
pub open spec fn bin_pow(x: int, n: nat) -> int
    decreases n,
{
    if n == 0 {
        1
    } else {
        bin_mul(x, bin_pow(x, (n - 1) as nat))
    }
}

proof fn lemma_xor_laws(x: u16, y: u16, z: u16)
    ensures
        x ^ y == y ^ x,
        (x ^ y) ^ z == x ^ (y ^ z),
        x ^ 0u16 == x,
        x ^ x == 0u16,
        x < 256 && y < 256 ==> (x ^ y) < 256,
{
    assert(x ^ y == y ^ x && (x ^ y) ^ z == x ^ (y ^ z) && x ^ 0u16 == x && x ^ x == 0u16 && (x < 256 && y
        < 256 ==> (x ^ y) < 256)) by (bit_vector);
}

proof fn lemma_bin_mul_laws(x: int, y: int, z: int)
    requires
        0 <= x < 256,
        0 <= y < 256,
        0 <= z < 256,
    ensures
        0 <= bin_mul(x, y) < 256,
        bin_mul(x, y) == bin_mul(y, x),
        bin_mul(bin_mul(x, y), z) == bin_mul(x, bin_mul(y, z)),
        bin_mul(x, 1) == x,
        bin_mul(x, 0) == 0,
        bin_mul(x, bin_add(y, z)) == bin_add(bin_mul(x, y), bin_mul(x, z)),
{
    let (xu, yu, zu) = (x as u16, y as u16, z as u16);
    lemma_gf_mul_byte(xu, yu);
    lemma_gf_mul_byte(yu, zu);
    lemma_gf_mul_comm(xu, yu);
    lemma_gf_mul_assoc(xu, yu, zu);
    lemma_gf_mul_one_zero(xu);
    lemma_gf_mul_linear(xu, 0u16, yu, zu);
}

proof fn lemma_bin_pow_byte(x: int, n: nat)
    requires
        0 <= x < 256,
    ensures
        0 <= bin_pow(x, n) < 256,
    decreases n,
{
    if n > 0 {
        lemma_bin_pow_byte(x, (n - 1) as nat);
        lemma_bin_mul_laws(x, bin_pow(x, (n - 1) as nat), 0);
    }
}

proof fn lemma_bin_pow_add(x: int, a: nat, b: nat)
    requires
        0 <= x < 256,
    ensures
        bin_pow(x, a + b) == bin_mul(bin_pow(x, a), bin_pow(x, b)),
    decreases a,
{
    lemma_bin_pow_byte(x, b);
    if a == 0 {
        lemma_bin_mul_laws(bin_pow(x, b), 1, 0);
        lemma_bin_mul_laws(1, bin_pow(x, b), 0);
    } else {
        let a1 = (a - 1) as nat;
        lemma_bin_pow_add(x, a1, b);
        lemma_bin_pow_byte(x, a1);
        lemma_bin_mul_laws(x, bin_pow(x, a1), bin_pow(x, b));
        assert(bin_pow(x, a + b) == bin_mul(x, bin_pow(x, (a + b - 1) as nat)));
        assert((a + b - 1) as nat == a1 + b);
    }
}

/// Square-and-multiply: `x^(2k + bit)` from `x^k`.
proof fn lemma_bin_pow_step(x: int, k: nat, bit: nat)
    requires
        0 <= x < 256,
        bit == 0 || bit == 1,
    ensures
        bit == 0 ==> bin_pow(x, 2 * k + bit) == bin_mul(bin_pow(x, k), bin_pow(x, k)),
        bit == 1 ==> bin_pow(x, 2 * k + bit) == bin_mul(bin_mul(bin_pow(x, k), bin_pow(x, k)), x),
{
    lemma_bin_pow_add(x, k, k);
    lemma_bin_pow_add(x, k + k, 1);
    lemma_bin_mul_laws(x, 1, 0);
    assert(bin_pow(x, 1) == bin_mul(x, bin_pow(x, 0)));
}

/// `x` squared `n` times, `x^(2^n)`.
pub open spec fn square_iter(x: u16, n: nat) -> u16
    decreases n,
{
    if n == 0 {
        x
    } else {
        let y = square_iter(x, (n - 1) as nat);
        gf_mul(y, y)
    }
}

proof fn lemma_xor_cancel(p: u16, q: u16, r: u16)
    ensures
        (p ^ q) ^ (q ^ r) == p ^ r,
{
    assert((p ^ q) ^ (q ^ r) == p ^ r) by (bit_vector);
}

/// Squaring distributes over addition in characteristic two.
proof fn lemma_square_linear(u: u16, v: u16)
    requires
        u < 256,
        v < 256,
    ensures
        gf_mul(u ^ v, u ^ v) == gf_mul(u, u) ^ gf_mul(v, v),
{
    // (u + v)(u + v) == (uu + uv) + (vu + vv), and uv == vu
    lemma_gf_mul_linear(u, v, u ^ v, 0u16);
    lemma_gf_mul_linear(u, 0u16, u, v);
    lemma_gf_mul_linear(v, 0u16, u, v);
    lemma_gf_mul_comm(u, v);
    lemma_xor_cancel(gf_mul(u, u), gf_mul(u, v), gf_mul(v, v));
}

proof fn lemma_square_iter_facts(u: u16, v: u16, n: nat)
    requires
        u < 256,
        v < 256,
    ensures
        square_iter(u ^ v, n) == square_iter(u, n) ^ square_iter(v, n),
        square_iter(u, n) < 256,
    decreases n,
{
    if n > 0 {
        let n1 = (n - 1) as nat;
        lemma_square_iter_facts(u, v, n1);
        lemma_square_iter_facts(v, u, n1);
        lemma_square_linear(square_iter(u, n1), square_iter(v, n1));
        lemma_gf_mul_byte(square_iter(u, n1), square_iter(u, n1));
    }
}

/// `x^256 == x` on every byte: squaring eight times is the identity.
proof fn lemma_frobenius(x: u16)
    requires
        x < 256,
    ensures
        square_iter(x, 8) == x,
{
    lemma_square_table();
    lemma_basis_values();
    let f = |y: u16| square_iter(y, 8);
    let g = |y: u16| y;
    assert forall|u: u16, v: u16| u < 256 && v < 256 implies #[trigger] f(u ^ v) == f(u) ^ f(v) by {
        lemma_square_iter_facts(u, v, 8);
    }
    assert forall|k: u16| k < 8 implies #[trigger] f(1u16 << k) == g(1u16 << k) by {
        reveal_with_fuel(square_iter, 9);
        if k == 0 {
        } else if k == 1 {
        } else if k == 2 {
        } else if k == 3 {
        } else if k == 4 {
        } else if k == 5 {
        } else if k == 6 {
        } else {
            assert(k == 7);
        }
    }
    lemma_linear_ext(f, g, x);
}

/// `x^(2^n)` is `x` squared `n` times.
proof fn lemma_bin_pow_pow2(x: int, n: nat)
    requires
        0 <= x < 256,
    ensures
        bin_pow(x, pow2(n)) == square_iter(x as u16, n) as int,
    decreases n,
{
    lemma2_to64();
    if n == 0 {
        lemma_bin_mul_laws(x, 1, 0);
        assert(bin_pow(x, 1) == bin_mul(x, bin_pow(x, 0)));
    } else {
        let n1 = (n - 1) as nat;
        lemma_bin_pow_pow2(x, n1);
        lemma_pow2_unfold(n);
        lemma_bin_pow_add(x, pow2(n1), pow2(n1));
        lemma_square_iter_facts(x as u16, 0u16, n1);
    }
}

/// `x^2 + x`, written through the images of the single bits: the map is
/// linear over GF(2).
pub open spec fn frobenius_minus_one(x: u16) -> u16 {
    (if x & 1u16 != 0u16 { 0u16 } else { 0u16 }) ^ (if x & 2u16 != 0u16 { 6u16 } else { 0u16 }) ^ (if x & 4u16 != 0u16 { 20u16 } else { 0u16 }) ^ (if x & 8u16 != 0u16 { 72u16 } else { 0u16 }) ^ (if x & 16u16 != 0u16 { 11u16 } else { 0u16 }) ^ (if x & 32u16 != 0u16 { 76u16 } else { 0u16 }) ^ (if x & 64u16 != 0u16 { 235u16 } else { 0u16 }) ^ (if x & 128u16 != 0u16 { 26u16 } else { 0u16 })
}

/// The squares of the bytes met when squaring the single-bit bytes.
proof fn lemma_square_table()
    ensures
        gf_mul(1u16, 1u16) == 1u16,
        gf_mul(2u16, 2u16) == 4u16,
        gf_mul(4u16, 4u16) == 16u16,
        gf_mul(8u16, 8u16) == 64u16,
        gf_mul(16u16, 16u16) == 27u16,
        gf_mul(27u16, 27u16) == 94u16,
        gf_mul(29u16, 29u16) == 74u16,
        gf_mul(32u16, 32u16) == 108u16,
        gf_mul(64u16, 64u16) == 171u16,
        gf_mul(74u16, 74u16) == 239u16,
        gf_mul(77u16, 77u16) == 250u16,
        gf_mul(94u16, 94u16) == 228u16,
        gf_mul(108u16, 108u16) == 151u16,
        gf_mul(128u16, 128u16) == 154u16,
        gf_mul(145u16, 145u16) == 128u16,
        gf_mul(148u16, 148u16) == 145u16,
        gf_mul(151u16, 151u16) == 148u16,
        gf_mul(154u16, 154u16) == 197u16,
        gf_mul(171u16, 171u16) == 179u16,
        gf_mul(179u16, 179u16) == 232u16,
        gf_mul(197u16, 197u16) == 32u16,
        gf_mul(228u16, 228u16) == 77u16,
        gf_mul(232u16, 232u16) == 29u16,
        gf_mul(239u16, 239u16) == 8u16,
        gf_mul(250u16, 250u16) == 2u16,
{
    assert(gf_mul(1u16, 1u16) == 1u16 && gf_mul(2u16, 2u16) == 4u16 && gf_mul(4u16, 4u16) == 16u16 && gf_mul(8u16, 8u16) == 64u16 && gf_mul(16u16, 16u16) == 27u16 && gf_mul(27u16, 27u16) == 94u16 && gf_mul(29u16, 29u16) == 74u16 && gf_mul(32u16, 32u16) == 108u16 && gf_mul(64u16, 64u16) == 171u16 && gf_mul(74u16, 74u16) == 239u16 && gf_mul(77u16, 77u16) == 250u16 && gf_mul(94u16, 94u16) == 228u16 && gf_mul(108u16, 108u16) == 151u16 && gf_mul(128u16, 128u16) == 154u16 && gf_mul(145u16, 145u16) == 128u16 && gf_mul(148u16, 148u16) == 145u16 && gf_mul(151u16, 151u16) == 148u16 && gf_mul(154u16, 154u16) == 197u16 && gf_mul(171u16, 171u16) == 179u16 && gf_mul(179u16, 179u16) == 232u16 && gf_mul(197u16, 197u16) == 32u16 && gf_mul(228u16, 228u16) == 77u16 && gf_mul(232u16, 232u16) == 29u16 && gf_mul(239u16, 239u16) == 8u16 && gf_mul(250u16, 250u16) == 2u16) by (bit_vector);
}

/// The single-bit bytes, and `x^2 + x` on them.
proof fn lemma_basis_values()
    ensures
        1u16 << 0u16 == 1u16,
        1u16 << 1u16 == 2u16,
        1u16 << 2u16 == 4u16,
        1u16 << 3u16 == 8u16,
        1u16 << 4u16 == 16u16,
        1u16 << 5u16 == 32u16,
        1u16 << 6u16 == 64u16,
        1u16 << 7u16 == 128u16,
        frobenius_minus_one(1u16) == 0u16,
        frobenius_minus_one(2u16) == 6u16,
        frobenius_minus_one(4u16) == 20u16,
        frobenius_minus_one(8u16) == 72u16,
        frobenius_minus_one(16u16) == 11u16,
        frobenius_minus_one(32u16) == 76u16,
        frobenius_minus_one(64u16) == 235u16,
        frobenius_minus_one(128u16) == 26u16,
        (1u16 ^ 1u16) == 0u16,
        (4u16 ^ 2u16) == 6u16,
        (16u16 ^ 4u16) == 20u16,
        (64u16 ^ 8u16) == 72u16,
        (27u16 ^ 16u16) == 11u16,
        (108u16 ^ 32u16) == 76u16,
        (171u16 ^ 64u16) == 235u16,
        (154u16 ^ 128u16) == 26u16,
{
    assert(1u16 << 0u16 == 1u16 && 1u16 << 1u16 == 2u16 && 1u16 << 2u16 == 4u16 && 1u16 << 3u16 == 8u16 && 1u16 << 4u16 == 16u16 && 1u16 << 5u16 == 32u16 && 1u16 << 6u16 == 64u16 && 1u16 << 7u16 == 128u16 && frobenius_minus_one(1u16) == 0u16 && frobenius_minus_one(2u16) == 6u16 && frobenius_minus_one(4u16) == 20u16 && frobenius_minus_one(8u16) == 72u16 && frobenius_minus_one(16u16) == 11u16 && frobenius_minus_one(32u16) == 76u16 && frobenius_minus_one(64u16) == 235u16 && frobenius_minus_one(128u16) == 26u16 && (1u16 ^ 1u16) == 0u16 && (4u16 ^ 2u16) == 6u16 && (16u16 ^ 4u16) == 20u16 && (64u16 ^ 8u16) == 72u16 && (27u16 ^ 16u16) == 11u16 && (108u16 ^ 32u16) == 76u16 && (171u16 ^ 64u16) == 235u16 && (154u16 ^ 128u16) == 26u16) by (bit_vector);
}

proof fn lemma_square_plus_one_linear()
    ensures
        forall|u: u16, v: u16| #[trigger] frobenius_minus_one(u ^ v) == frobenius_minus_one(u) ^ frobenius_minus_one(v),
{
    assert(forall|u: u16, v: u16| #[trigger] frobenius_minus_one(u ^ v) == frobenius_minus_one(u) ^ frobenius_minus_one(v))
        by (bit_vector);
}

/// The only bytes equal to their square are 0 and 1.
proof fn lemma_square_fixed_points(x: u16)
    requires
        x < 256,
        gf_mul(x, x) == x,
    ensures
        x == 0u16 || x == 1u16,
{
    lemma_basis_values();
    lemma_square_table();
    lemma_square_plus_one_linear();
    let f = |y: u16| gf_mul(y, y) ^ y;
    let g = |y: u16| frobenius_minus_one(y);
    assert forall|u: u16, v: u16| u < 256 && v < 256 implies #[trigger] f(u ^ v) == f(u) ^ f(v) by {
        lemma_square_linear(u, v);
        lemma_xor_swap(gf_mul(u, u), gf_mul(v, v), u, v);
    }
    assert forall|k: u16| k < 8 implies #[trigger] f(1u16 << k) == g(1u16 << k) by {
        if k == 0 {
        } else if k == 1 {
        } else if k == 2 {
        } else if k == 3 {
        } else if k == 4 {
        } else if k == 5 {
        } else if k == 6 {
        } else {
            assert(k == 7);
        }
    }
    lemma_linear_ext(f, g, x);
    lemma_xor_laws(x, 0u16, 0u16);
    assert(x < 256 && frobenius_minus_one(x) == 0u16 ==> x == 0u16 || x == 1u16) by (bit_vector);
}

/// Every nonzero byte is invertible, with inverse `x^254`.
pub proof fn lemma_bin_inverse(a: int)
    requires
        0 < a < 256,
    ensures
        bin_mul(a, bin_pow(a, 254)) == 1,
{
    lemma2_to64();
    lemma_bin_pow_pow2(a, 8);
    lemma_frobenius(a as u16);
    assert(bin_pow(a, 256) == a);
    let c = bin_pow(a, 255);
    assert(c == bin_mul(a, bin_pow(a, 254)));
    assert(bin_pow(a, 256) == bin_mul(a, c));
    lemma_bin_pow_add(a, 255, 255);
    lemma_bin_pow_add(a, 256, 254);
    assert(bin_mul(c, c) == c);
    lemma_bin_pow_byte(a, 255);
    lemma_square_fixed_points(c as u16);
    lemma_bin_mul_laws(a, 0, 0);
}

/// An element of GF(2^8), stored as a byte in a `u16`.
#[derive(Debug, Clone, Copy, PartialEq, Eq)]
pub struct BinaryField8(u16);

impl BinaryField8 {
    #[verifier::type_invariant]
    spec fn is_byte(self) -> bool {
        self.0 < 256
    }

    pub fn from_byte(val: u8) -> (r: Self)
        ensures
            r@ == val as int,
    {
        BinaryField8(val as u16)
    }

    pub fn to_byte(self) -> (r: u8)
        ensures
            r as int == self@,
    {
        proof {
            use_type_invariant(&self);
        }
        self.0 as u8
    }
}

impl View for BinaryField8 {
    type V = int;

    closed spec fn view(&self) -> int {
        (self.0 % 256) as int
    }
}

impl Field for BinaryField8 {
    open spec fn order() -> int {
        256
    }

    open spec fn vadd(x: int, y: int) -> int {
        bin_add(x, y)
    }

    /// Subtraction is addition in characteristic two.
    open spec fn vsub(x: int, y: int) -> int {
        bin_add(x, y)
    }

    open spec fn vmul(x: int, y: int) -> int {
        bin_mul(x, y)
    }

    /// Every element is its own negation.
    open spec fn vneg(x: int) -> int {
        x
    }

    open spec fn vpow(x: int, n: nat) -> int {
        bin_pow(x, n)
    }

    open spec fn inv_exponent() -> nat {
        254
    }

    proof fn lemma_pow_unfold(x: int, n: nat) {
    }

    proof fn lemma_order() {
    }

    proof fn lemma_value_in_field(a: Self) {
    }

    proof fn lemma_closed(x: int, y: int) {
        lemma_xor_laws(x as u16, y as u16, 0u16);
        lemma_bin_mul_laws(x, y, 0);
    }

    proof fn lemma_odd_inverse_or_char_two() {
    }

    proof fn lemma_add_laws(x: int, y: int, z: int) {
        lemma_xor_laws(x as u16, y as u16, z as u16);
        lemma_xor_laws(x as u16, 0u16, 0u16);
    }

    proof fn lemma_mul_laws(x: int, y: int, z: int) {
        lemma_bin_mul_laws(x, y, z);
    }

    fn zero() -> (r: Self) {
        BinaryField8(0)
    }

    fn one() -> (r: Self) {
        BinaryField8(1)
    }

    fn add(self, rhs: Self) -> (r: Self) {
        proof {
            use_type_invariant(&self);
            use_type_invariant(&rhs);
            lemma_xor_laws(self.0, rhs.0, 0u16);
        }
        BinaryField8(self.0 ^ rhs.0)
    }

    fn sub(self, rhs: Self) -> (r: Self) {
        proof {
            use_type_invariant(&self);
            use_type_invariant(&rhs);
            lemma_xor_laws(self.0, rhs.0, 0u16);
        }
        BinaryField8(self.0 ^ rhs.0)
    }

    fn mul(self, rhs: Self) -> (r: Self) {
        proof {
            use_type_invariant(&self);
            use_type_invariant(&rhs);
            lemma_gf_mul_byte(self.0, rhs.0);
        }
        BinaryField8(gf8_mul(self.0, rhs.0))
    }

    fn neg(self) -> (r: Self) {
        self
    }

    fn equals(self, rhs: Self) -> (r: bool) {
        proof {
            use_type_invariant(&self);
            use_type_invariant(&rhs);
        }
        self.0 == rhs.0
    }

    fn inv(self) -> (r: Result<Self, Error>) {
        proof {
            use_type_invariant(&self);
        }
        if self.0 == 0 {
            Err(Error::DivisionByZero)
        } else {
            Ok(self.pow(254))
        }
    }

    fn pow(self, exp: u64) -> (r: Self) {
        iterative_pow(self, exp)
    }
}

fn iterative_pow(base: BinaryField8, exp: u64) -> (r: BinaryField8)
    ensures
        r@ == bin_pow(base@, exp as nat),
{
    proof {
        use_type_invariant(&base);
    }
    let ghost x = base@;
    let mut acc = BinaryField8::one();
    let mut i: u32 = 64;
    while i > 0
        invariant
            i <= 64,
            x == base@,
            0 <= x < 256,
            acc@ == bin_pow(x, shr_or_zero(exp, i)),
        decreases i,
    {
        i = i - 1;
        proof {
            lemma_shr_step(exp, i);
            lemma_bin_pow_step(x, shr_or_zero(exp, (i + 1) as u32), ((exp >> (i as u64)) & 1) as nat);
        }
        let squared = acc.mul(acc);
        if (exp >> i) & 1 == 1 {
            acc = squared.mul(base);
        } else {
            acc = squared;
        }
    }
    proof {
        lemma_shr_zero(exp);
    }
    acc
}

fn gf8_mul(a: u16, b: u16) -> (r: u16)
    ensures
        r == gf_mul(a, b),
{
    let product = carryless_mul_u8(a, b);
    reduce(product)
}

fn carryless_mul_u8(a: u16, b: u16) -> (r: u16)
    ensures
        r == clmul(a, b),
{
    let mut acc: u16 = 0;
    let mut i: u16 = 0;
    while i < 8
        invariant
            i <= 8,
            acc == clmul_prefix(a, b, i as nat),
        decreases 8 - i,
    {
        proof {
            lemma_xor_laws(acc, 0u16, 0u16);
            assert(clmul_prefix(a, b, (i + 1) as nat) == acc ^ clmul_term(a, b, i));
        }
        if (b >> i) & 1 == 1 {
            acc = acc ^ (a << i);
        }
        i = i + 1;
    }
    acc
}

fn reduce(val: u16) -> (r: u16)
    ensures
        r == poly_reduce(val),
{
    let mut v = val;
    let mut k: u16 = 0;
    while k < 8
        invariant
            k <= 8,
            v == reduce_from(val, k as nat),
        decreases 8 - k,
    {
        let i: u16 = 15 - k;
        proof {
            assert(reduce_from(val, (k + 1) as nat) == reduce_step(v, i));
        }
        if (v >> i) & 1 == 1 {
            v = v ^ (IRREDUCIBLE << (i - 8));
        }
        k = k + 1;
    }
    v
}

} // verus!

verus! {

proof fn lemma_low_byte(v: u64, w: u32)
    ensures
        (v & 0xFFu64) == v % 256,
        (w & 0xFFu32) == w % 256,
{
    assert((v & 0xFFu64) == v % 256 && (w & 0xFFu32) == w % 256) by (bit_vector);
}

impl From<u64> for BinaryField8 {
    /// Keeps the low byte.
    fn from(val: u64) -> (r: Self) {
        proof {
            lemma_low_byte(val, 0u32);
        }
        BinaryField8((val & 0xFF) as u16)
    }
}

impl vstd::std_specs::convert::FromSpecImpl<u64> for BinaryField8 {
    open spec fn obeys_from_spec() -> bool {
        true
    }

    closed spec fn from_spec(v: u64) -> Self {
        BinaryField8((v & 0xFFu64) as u16)
    }
}

impl From<u32> for BinaryField8 {
    /// Keeps the low byte.
    fn from(val: u32) -> (r: Self) {
        proof {
            lemma_low_byte(0u64, val);
        }
        BinaryField8((val & 0xFF) as u16)
    }
}

impl vstd::std_specs::convert::FromSpecImpl<u32> for BinaryField8 {
    open spec fn obeys_from_spec() -> bool {
        true
    }

    closed spec fn from_spec(v: u32) -> Self {
        BinaryField8((v & 0xFFu32) as u16)
    }
}

impl BinaryField8 {
    /// Converting an integer keeps its low byte.
    pub proof fn lemma_from_int(v: u64, w: u32)
        ensures
            <BinaryField8 as vstd::std_specs::convert::FromSpec<u64>>::from_spec(v)@ == (v as int) % 256,
            <BinaryField8 as vstd::std_specs::convert::FromSpec<u32>>::from_spec(w)@ == (w as int) % 256,
    {
        lemma_low_byte(v, w);
    }
}

impl BinaryField8 {
    /// A nonzero element times its inverse `x^254` is one, and inverting
    /// twice gives the element back.
    pub proof fn lemma_inverse(a: int)
        requires
            0 < a < 256,
        ensures
            <BinaryField8 as Field>::vmul(a, <BinaryField8 as Field>::vpow(a, 254)) == 1,
            <BinaryField8 as Field>::vpow(<BinaryField8 as Field>::vpow(a, 254), 254) == a,
    {
        lemma_bin_inverse(a);
        let b = bin_pow(a, 254);
        lemma_bin_pow_byte(a, 254);
        lemma_bin_mul_laws(a, 0, 0);
        assert(b != 0);
        lemma_bin_inverse(b);
        let c = bin_pow(b, 254);
        lemma_bin_pow_byte(b, 254);
        lemma_bin_mul_laws(a, b, c);
        lemma_bin_mul_laws(c, 1, 0);
        lemma_bin_mul_laws(1, c, 0);
        lemma_bin_mul_laws(c, a, b);
        lemma_bin_mul_laws(a, 1, 0);
    }
}

} // verus!
