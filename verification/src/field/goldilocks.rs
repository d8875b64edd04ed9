use vstd::prelude::*;

use super::error::Error;
use super::modp::{lemma_mod_closed, lemma_mod_add_laws, lemma_mod_mul_laws, mod_add, mod_sub, mod_mul, mod_neg, mod_pow, shr_or_zero, lemma_shr_step, lemma_shr_zero, lemma_mod_pow_step, lemma_reduce_once};
use super::Field;

verus! {

pub const P: u128 = 18_446_744_069_414_584_321;

pub const ORDER_MINUS_2: u64 = 18_446_744_069_414_584_319;

/// The Goldilocks prime field, of order `2^64 - 2^32 + 1`.
#[derive(Debug, Clone, Copy, PartialEq, Eq)]
pub struct Goldilocks(u128);

impl Goldilocks {
    #[verifier::type_invariant]
    spec fn canonical(self) -> bool {
        self.0 < P
    }

    /// The field order.
    pub fn modulus() -> (r: u128)
        ensures
            r == P,
    {
        P
    }
}

impl View for Goldilocks {
    type V = int;

    closed spec fn view(&self) -> int {
        (self.0 % P) as int
    }
}

impl Field for Goldilocks {
    open spec fn order() -> int {
        P as int
    }

    open spec fn vadd(x: int, y: int) -> int {
        mod_add(x, y, P as int)
    }

    open spec fn vsub(x: int, y: int) -> int {
        mod_sub(x, y, P as int)
    }

    open spec fn vmul(x: int, y: int) -> int {
        mod_mul(x, y, P as int)
    }

    open spec fn vneg(x: int) -> int {
        mod_neg(x, P as int)
    }

    open spec fn vpow(x: int, n: nat) -> int {
        mod_pow(x, n, P as int)
    }

    open spec fn inv_exponent() -> nat {
        (P - 2) as nat
    }

    proof fn lemma_pow_unfold(x: int, n: nat) {
    }

    proof fn lemma_order() {
    }

    proof fn lemma_value_in_field(a: Self) {
    }

    proof fn lemma_closed(x: int, y: int) {
        lemma_mod_closed(x, y, P as int);
    }

    proof fn lemma_odd_inverse_or_char_two() {
    }

    proof fn lemma_add_laws(x: int, y: int, z: int) {
        lemma_mod_add_laws(x, y, z, P as int);
    }

    proof fn lemma_mul_laws(x: int, y: int, z: int) {
        lemma_mod_mul_laws(x, y, z, P as int);
    }

    fn zero() -> (r: Self) {
        Goldilocks(0)
    }

    fn one() -> (r: Self) {
        Goldilocks(1)
    }

    fn add(self, rhs: Self) -> (r: Self) {
        proof {
            use_type_invariant(&self);
            use_type_invariant(&rhs);
        }
        let sum = self.0 + rhs.0;
        proof {
            lemma_reduce_once(sum as int, P as int);
        }
        Goldilocks(if sum >= P { sum - P } else { sum })
    }

    fn sub(self, rhs: Self) -> (r: Self) {
        proof {
            use_type_invariant(&self);
            use_type_invariant(&rhs);
        }
        proof {
            lemma_reduce_once(self.0 + P - rhs.0, P as int);
        }
        Goldilocks(if self.0 >= rhs.0 {
            self.0 - rhs.0
        } else {
            self.0 + P - rhs.0
        })
    }

    fn mul(self, rhs: Self) -> (r: Self) {
        proof {
            use_type_invariant(&self);
            use_type_invariant(&rhs);
            assert(self.0 * rhs.0 < P * P) by (nonlinear_arith)
                requires self.0 < P, rhs.0 < P;
        }
        Goldilocks((self.0 * rhs.0) % P)
    }

    fn neg(self) -> (r: Self) {
        proof {
            use_type_invariant(&self);
        }
        if self.0 == 0 {
            Goldilocks(0)
        } else {
            Goldilocks(P - self.0)
        }
    }

    fn equals(self, rhs: Self) -> (r: bool) {
        proof {
            use_type_invariant(&self);
            use_type_invariant(&rhs);
        }
        self.0 == rhs.0
    }

    fn inv(self) -> (r: Result<Self, Error>) {
        proof {
            use_type_invariant(&self);
        }
        if self.0 == 0 {
            Err(Error::DivisionByZero)
        } else {
            Ok(self.pow(ORDER_MINUS_2))
        }
    }

    fn pow(self, exp: u64) -> (r: Self) {
        iterative_pow(self, exp)
    }
}

} // verus!

verus! {

fn iterative_pow(base: Goldilocks, exp: u64) -> (r: Goldilocks)
    ensures
        r@ == mod_pow(base@, exp as nat, P as int),
{
    let ghost x = base@;
    let mut acc = Goldilocks::one();
    let mut i: u32 = 64;
    while i > 0
        invariant
            i <= 64,
            x == base@,
            0 <= x < P,
            acc@ == mod_pow(x, shr_or_zero(exp, i), P as int),
        decreases i,
    {
        i = i - 1;
        proof {
            lemma_shr_step(exp, i);
            lemma_mod_pow_step(x, shr_or_zero(exp, (i + 1) as u32), ((exp >> (i as u64)) & 1) as nat, P as int);
        }
        let squared = acc.mul(acc);
        if (exp >> i) & 1 == 1 {
            acc = squared.mul(base);
        } else {
            acc = squared;
        }
    }
    proof {
        lemma_shr_zero(exp);
    }
    acc
}

} // verus!
verus! {

impl From<u64> for Goldilocks {
    fn from(val: u64) -> (r: Self) {
        Goldilocks(u128::from(val) % P)
    }
}

impl vstd::std_specs::convert::FromSpecImpl<u64> for Goldilocks {
    open spec fn obeys_from_spec() -> bool {
        true
    }

    closed spec fn from_spec(v: u64) -> Self {
        Goldilocks((v as u128) % P)
    }
}

impl From<u32> for Goldilocks {
    fn from(val: u32) -> (r: Self) {
        Goldilocks(u128::from(val) % P)
    }
}

impl vstd::std_specs::convert::FromSpecImpl<u32> for Goldilocks {
    open spec fn obeys_from_spec() -> bool {
        true
    }

    closed spec fn from_spec(v: u32) -> Self {
        Goldilocks((v as u128) % P)
    }
}

impl From<Goldilocks> for u128 {
    fn from(val: Goldilocks) -> (r: u128) {
        val.0
    }
}

impl vstd::std_specs::convert::FromSpecImpl<Goldilocks> for u128 {
    open spec fn obeys_from_spec() -> bool {
        true
    }

    closed spec fn from_spec(v: Goldilocks) -> u128 {
        v.0
    }
}

impl Goldilocks {
    /// Converting an integer gives its residue modulo the field order.
    pub proof fn lemma_from_int(v: u64, w: u32)
        ensures
            <Goldilocks as vstd::std_specs::convert::FromSpec<u64>>::from_spec(v)@ == (v as int) % (P as int),
            <Goldilocks as vstd::std_specs::convert::FromSpec<u32>>::from_spec(w)@ == (w as int) % (P as int),
    {
        vstd::arithmetic::div_mod::lemma_mod_twice(v as int, P as int);
        vstd::arithmetic::div_mod::lemma_mod_twice(w as int, P as int);
    }

    /// Converting back to an integer gives a representative of the value.
    pub proof fn lemma_into_int(a: Goldilocks)
        ensures
            <u128 as vstd::std_specs::convert::FromSpec<Goldilocks>>::from_spec(a) as int % (P as int) == a@,
    {
    }
}

} // verus!
