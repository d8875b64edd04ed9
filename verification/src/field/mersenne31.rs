use vstd::prelude::*;

use super::error::Error;
use super::modp::{lemma_mod_closed, lemma_mod_add_laws, lemma_mod_mul_laws, mod_add, mod_sub, mod_mul, mod_neg, mod_pow, shr_or_zero, lemma_shr_step, lemma_shr_zero, lemma_mod_pow_step, lemma_reduce_once};
use super::Field;

verus! {

pub const P: u64 = 0x7fff_ffff;

/// The Mersenne prime field, of order `2^31 - 1`.
#[derive(Debug, Clone, Copy, PartialEq, Eq)]
pub struct Mersenne31(u64);

impl Mersenne31 {
    #[verifier::type_invariant]
    spec fn canonical(self) -> bool {
        self.0 < P
    }

    /// The field order.
    pub fn modulus() -> (r: u64)
        ensures
            r == P,
    {
        P
    }
}

impl View for Mersenne31 {
    type V = int;

    closed spec fn view(&self) -> int {
        (self.0 % P) as int
    }
}

impl Field for Mersenne31 {
    open spec fn order() -> int {
        P as int
    }

    open spec fn vadd(x: int, y: int) -> int {
        mod_add(x, y, P as int)
    }

    open spec fn vsub(x: int, y: int) -> int {
        mod_sub(x, y, P as int)
    }

    open spec fn vmul(x: int, y: int) -> int {
        mod_mul(x, y, P as int)
    }

    open spec fn vneg(x: int) -> int {
        mod_neg(x, P as int)
    }

    open spec fn vpow(x: int, n: nat) -> int {
        mod_pow(x, n, P as int)
    }

    open spec fn inv_exponent() -> nat {
        (P - 2) as nat
    }

    proof fn lemma_pow_unfold(x: int, n: nat) {
    }

    proof fn lemma_order() {
    }

    proof fn lemma_value_in_field(a: Self) {
    }

    proof fn lemma_closed(x: int, y: int) {
        lemma_mod_closed(x, y, P as int);
    }

    proof fn lemma_odd_inverse_or_char_two() {
    }

    proof fn lemma_add_laws(x: int, y: int, z: int) {
        lemma_mod_add_laws(x, y, z, P as int);
    }

    proof fn lemma_mul_laws(x: int, y: int, z: int) {
        lemma_mod_mul_laws(x, y, z, P as int);
    }

    fn zero() -> (r: Self) {
        Mersenne31(0)
    }

    fn one() -> (r: Self) {
        Mersenne31(1)
    }

    fn add(self, rhs: Self) -> (r: Self) {
        proof {
            use_type_invariant(&self);
            use_type_invariant(&rhs);
        }
        let sum = self.0 + rhs.0;
        proof {
            lemma_reduce_once(sum as int, P as int);
        }
        Mersenne31(if sum >= P { sum - P } else { sum })
    }

    fn sub(self, rhs: Self) -> (r: Self) {
        proof {
            use_type_invariant(&self);
            use_type_invariant(&rhs);
        }
        proof {
            lemma_reduce_once(self.0 + P - rhs.0, P as int);
        }
        Mersenne31(if self.0 >= rhs.0 {
            self.0 - rhs.0
        } else {
            self.0 + P - rhs.0
        })
    }

    fn mul(self, rhs: Self) -> (r: Self) {
        proof {
            use_type_invariant(&self);
            use_type_invariant(&rhs);
            assert(self.0 * rhs.0 < P * P) by (nonlinear_arith)
                requires self.0 < P, rhs.0 < P;
        }
        let product = self.0 * rhs.0;
        Mersenne31(reduce_mersenne(product))
    }

    fn neg(self) -> (r: Self) {
        proof {
            use_type_invariant(&self);
        }
        if self.0 == 0 {
            Mersenne31(0)
        } else {
            Mersenne31(P - self.0)
        }
    }

    fn equals(self, rhs: Self) -> (r: bool) {
        proof {
            use_type_invariant(&self);
            use_type_invariant(&rhs);
        }
        self.0 == rhs.0
    }

    fn inv(self) -> (r: Result<Self, Error>) {
        proof {
            use_type_invariant(&self);
        }
        if self.0 == 0 {
            Err(Error::DivisionByZero)
        } else {
            Ok(self.pow(P - 2))
        }
    }

    fn pow(self, exp: u64) -> (r: Self) {
        iterative_pow(self, exp)
    }
}

} // verus!

verus! {

fn iterative_pow(base: Mersenne31, exp: u64) -> (r: Mersenne31)
    ensures
        r@ == mod_pow(base@, exp as nat, P as int),
{
    let ghost x = base@;
    let mut acc = Mersenne31::one();
    let mut i: u32 = 64;
    while i > 0
        invariant
            i <= 64,
            x == base@,
            0 <= x < P,
            acc@ == mod_pow(x, shr_or_zero(exp, i), P as int),
        decreases i,
    {
        i = i - 1;
        proof {
            lemma_shr_step(exp, i);
            lemma_mod_pow_step(x, shr_or_zero(exp, (i + 1) as u32), ((exp >> (i as u64)) & 1) as nat, P as int);
        }
        let squared = acc.mul(acc);
        if (exp >> i) & 1 == 1 {
            acc = squared.mul(base);
        } else {
            acc = squared;
        }
    }
    proof {
        lemma_shr_zero(exp);
    }
    acc
}

} // verus!

verus! {

/// Reduces `val < p^2` modulo `p = 2^31 - 1`, using `2^31 == 1 (mod p)`.
fn reduce_mersenne(val: u64) -> (r: u64)
    requires
        val < P * P,
    ensures
        r == val % P,
{
    let lo = val & P;
    let hi = val >> 31;
    proof {
        assert(lo == val % 0x8000_0000 && hi == val / 0x8000_0000) by (bit_vector)
            requires lo == val & 0x7fff_ffffu64, hi == val >> 31u64;
        assert(val == hi * 0x8000_0000 + lo);
        assert(hi < P) by (nonlinear_arith)
            requires val == hi * 0x8000_0000 + lo, val < P * P, lo >= 0, P == 0x7fff_ffff;
        assert((hi * 0x8000_0000 + lo) % (P as int) == (hi + lo) % (P as int)) by {
            vstd::arithmetic::div_mod::lemma_mod_multiples_vanish(hi as int, hi + lo, P as int);
            assert(hi * 0x8000_0000 + lo == P * hi + (hi + lo)) by (nonlinear_arith)
                requires P == 0x7fff_ffff;
        }
        lemma_reduce_once(hi + lo, P as int);
    }
    let sum = lo + hi;
    if sum >= P { sum - P } else { sum }
}

} // verus!
verus! {

impl From<u64> for Mersenne31 {
    fn from(val: u64) -> (r: Self) {
        Mersenne31(val % P)
    }
}

impl vstd::std_specs::convert::FromSpecImpl<u64> for Mersenne31 {
    open spec fn obeys_from_spec() -> bool {
        true
    }

    closed spec fn from_spec(v: u64) -> Self {
        Mersenne31((v as u64) % P)
    }
}

impl From<u32> for Mersenne31 {
    fn from(val: u32) -> (r: Self) {
        Mersenne31(u64::from(val) % P)
    }
}

impl vstd::std_specs::convert::FromSpecImpl<u32> for Mersenne31 {
    open spec fn obeys_from_spec() -> bool {
        true
    }

    closed spec fn from_spec(v: u32) -> Self {
        Mersenne31((v as u64) % P)
    }
}

impl From<Mersenne31> for u64 {
    fn from(val: Mersenne31) -> (r: u64) {
        val.0
    }
}

impl vstd::std_specs::convert::FromSpecImpl<Mersenne31> for u64 {
    open spec fn obeys_from_spec() -> bool {
        true
    }

    closed spec fn from_spec(v: Mersenne31) -> u64 {
        v.0
    }
}

impl Mersenne31 {
    /// Converting an integer gives its residue modulo the field order.
    pub proof fn lemma_from_int(v: u64, w: u32)
        ensures
            <Mersenne31 as vstd::std_specs::convert::FromSpec<u64>>::from_spec(v)@ == (v as int) % (P as int),
            <Mersenne31 as vstd::std_specs::convert::FromSpec<u32>>::from_spec(w)@ == (w as int) % (P as int),
    {
        vstd::arithmetic::div_mod::lemma_mod_twice(v as int, P as int);
        vstd::arithmetic::div_mod::lemma_mod_twice(w as int, P as int);
    }

    /// Converting back to an integer gives a representative of the value.
    pub proof fn lemma_into_int(a: Mersenne31)
        ensures
            <u64 as vstd::std_specs::convert::FromSpec<Mersenne31>>::from_spec(a) as int % (P as int) == a@,
    {
    }
}

} // verus!
