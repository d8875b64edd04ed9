//! Small helpers on integers and vectors used throughout the crate.

use vstd::prelude::*;
use vstd::arithmetic::power2::{is_pow2, pow2, lemma_pow2_unfold, lemma_pow2_pos};

verus! {

/// Whether `n` is a power of two (`1, 2, 4, ...`).
pub fn is_power_of_two(n: usize) -> (r: bool)
    ensures
        r == is_pow2(n as int),
{
    reveal(is_pow2);
    if n == 0 {
        return false;
    }
    let mut m = n;
    while m > 1
        invariant
            m >= 1,
            is_pow2(n as int) == is_pow2(m as int),
        decreases m,
    {
        proof {
            reveal(is_pow2);
        }
        if m % 2 == 1 {
            return false;
        }
        m = m / 2;
    }
    true
}

/// The exponent `k` of a power of two `n == 2^k`.
pub fn log2_exact(n: usize) -> (r: u32)
    requires
        is_pow2(n as int),
    ensures
        pow2(r as nat) == n,
        r < 64,
{
    reveal(is_pow2);
    let mut m = n;
    let mut k: u32 = 0;
    proof {
        vstd::arithmetic::power2::lemma2_to64();
    }
    while m > 1
        invariant
            m >= 1,
            is_pow2(m as int),
            m * pow2(k as nat) == n,
            k < 64,
            m <= usize::MAX,
            n <= usize::MAX,
        decreases m,
    {
        proof {
            reveal(is_pow2);
            lemma_pow2_unfold((k + 1) as nat);
            lemma_pow2_pos(k as nat);
            assert(m * pow2(k as nat) == (m / 2) * pow2((k + 1) as nat)) by (nonlinear_arith)
                requires m % 2 == 0, pow2((k + 1) as nat) == 2 * pow2(k as nat);
            assert(k + 1 < 64) by {
                if k + 1 >= 64 {
                    vstd::arithmetic::power2::lemma_pow2_strictly_increases(63, (k + 1) as nat);
                    vstd::bits::lemma_u64_pow2_no_overflow(63);
                    vstd::arithmetic::power2::lemma2_to64_rest();
                    assert((m / 2) * pow2((k + 1) as nat) >= pow2((k + 1) as nat)) by (nonlinear_arith)
                        requires m / 2 >= 1, pow2((k + 1) as nat) > 0;
                }
            }
        }
        m = m / 2;
        k = k + 1;
    }
    k
}

/// An element-wise copy of a vector.
pub fn copy_vec<T: Copy>(v: &Vec<T>) -> (r: Vec<T>)
    ensures
        r@ == v@,
{
    let mut r: Vec<T> = Vec::new();
    let mut i: usize = 0;
    while i < v.len()
        invariant
            i <= v.len(),
            r@ == v@.subrange(0, i as int),
        decreases v.len() - i,
    {
        r.push(v[i]);
        i = i + 1;
        proof {
            assert(r@ =~= v@.subrange(0, i as int));
        }
    }
    proof {
        assert(r@ =~= v@);
    }
    r
}

/// The number of trailing zero bits of `n`; `usize::BITS` for zero.
pub open spec fn trailing_zeros_spec(n: nat) -> nat
    decreases n,
{
    if n == 0 {
        usize::BITS as nat
    } else if n % 2 == 1 {
        0
    } else {
        1 + trailing_zeros_spec(n / 2)
    }
}

/// A power of two that fits in a `usize` has an exponent below `usize::BITS`.
pub proof fn lemma_pow2_fits(k: nat)
    requires
        pow2(k) <= usize::MAX,
    ensures
        k < usize::BITS,
{
    vstd::arithmetic::power2::lemma2_to64();
    vstd::arithmetic::power2::lemma2_to64_rest();
    if k >= usize::BITS {
        if k > usize::BITS { vstd::arithmetic::power2::lemma_pow2_strictly_increases(usize::BITS as nat, k); }
    }
}

/// `2^k`, computed by a shift.
pub fn pow2_usize(k: usize) -> (r: usize)
    requires
        pow2(k as nat) <= usize::MAX,
    ensures
        r == pow2(k as nat),
{
    proof {
        lemma_pow2_fits(k as nat);
        vstd::bits::lemma_usize_shl_is_mul(1, k);
    }
    1usize << k
}

/// The number of trailing zero bits of `n`, `usize::BITS` for zero.
pub fn trailing_zeros(n: usize) -> (r: u32)
    ensures
        r == trailing_zeros_spec(n as nat),
        n > 0 ==> r < usize::BITS,
{
    if n == 0 {
        return usize::BITS;
    }
    let mut m = n;
    let mut k: u32 = 0;
    proof {
        vstd::arithmetic::power2::lemma2_to64();
    }
    while m % 2 == 0
        invariant
            m > 0,
            k + trailing_zeros_spec(m as nat) == trailing_zeros_spec(n as nat),
            m * pow2(k as nat) == n,
            n <= usize::MAX,
        decreases m,
    {
        proof {
            lemma_pow2_unfold((k + 1) as nat);
            lemma_pow2_pos(k as nat);
            assert(m * pow2(k as nat) == (m / 2) * pow2((k + 1) as nat)) by (nonlinear_arith)
                requires m % 2 == 0, pow2((k + 1) as nat) == 2 * pow2(k as nat);
            assert(pow2((k + 1) as nat) <= n) by (nonlinear_arith)
                requires (m / 2) * pow2((k + 1) as nat) == n, m / 2 >= 1, pow2((k + 1) as nat) > 0;
            lemma_pow2_fits((k + 1) as nat);
        }
        m = m / 2;
        k = k + 1;
    }
    proof {
        lemma_pow2_pos(k as nat);
        assert(pow2(k as nat) <= n) by (nonlinear_arith)
            requires m * pow2(k as nat) == n, m >= 1, pow2(k as nat) > 0;
        lemma_pow2_fits(k as nat);
    }
    k
}

} // verus!
