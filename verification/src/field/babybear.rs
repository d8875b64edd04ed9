use vstd::prelude::*;
use vstd::arithmetic::power2::{lemma2_to64, lemma_pow2_adds, lemma_pow2_unfold, pow2};
use vstd::arithmetic::div_mod::lemma_small_mod;

use super::error::Error;
use super::modp::{lemma_mod_closed, lemma_mod_add_laws, lemma_mod_mul_laws, mod_add, mod_sub, mod_mul, mod_neg, mod_pow, shr_or_zero, lemma_shr_step, lemma_shr_zero, lemma_mod_pow_step, lemma_mod_pow_add};
use super::Field;

verus! {

pub const P: u64 = 0x7800_0001;

pub const TWO_ADIC_ORDER: u32 = 27;

/// The BabyBear prime field, of order `15 * 2^27 + 1`.
#[derive(Debug, Clone, Copy, PartialEq, Eq)]
pub struct BabyBear(u64);

impl BabyBear {
    #[verifier::type_invariant]
    spec fn canonical(self) -> bool {
        self.0 < P
    }

    /// The field order.
    pub fn modulus() -> (r: u64)
        ensures
            r == P,
    {
        P
    }

    /// The largest `k` such that `2^k` divides `modulus() - 1`.
    pub fn two_adic_order() -> (r: u32)
        ensures
            r == TWO_ADIC_ORDER,
    {
        TWO_ADIC_ORDER
    }

    /// `31^15`, an element of multiplicative order `2^27`.
    pub fn two_adic_generator() -> (r: Self)
        ensures
            r@ == mod_pow(31, 15, P as int),
    {
        let g = Self::from(31u32);
        proof {
            Self::lemma_from_int(0, 31);
        }
        g.pow(15)
    }

    /// The principal `2^log_n`-th root of unity, `g^(2^(27 - log_n))` for the
    /// generator `g` above; only defined for `log_n <= 27`.
    pub fn root_of_unity(log_n: u32) -> (r: Result<Self, Error>)
        ensures
            log_n > TWO_ADIC_ORDER ==> r == Err::<Self, Error>(Error::InvalidFieldElement),
            log_n <= TWO_ADIC_ORDER ==> r is Ok && r->Ok_0@ == mod_pow(
                mod_pow(31, 15, P as int),
                pow2((TWO_ADIC_ORDER - log_n) as nat),
                P as int,
            ),
    {
        if log_n > TWO_ADIC_ORDER {
            Err(Error::InvalidFieldElement)
        } else {
            let shift = (TWO_ADIC_ORDER - log_n) as u64;
            proof {
                vstd::bits::lemma_u64_pow2_no_overflow(shift as nat);
                vstd::bits::lemma_u64_shl_is_mul(1, shift);
                vstd::arithmetic::power2::lemma_pow2_strictly_increases(shift as nat, 63);
            }
            Ok(Self::two_adic_generator().pow(1u64 << shift))
        }
    }
}

impl View for BabyBear {
    type V = int;

    closed spec fn view(&self) -> int {
        (self.0 % P) as int
    }
}

impl Field for BabyBear {
    open spec fn order() -> int {
        P as int
    }

    open spec fn vadd(x: int, y: int) -> int {
        mod_add(x, y, P as int)
    }

    open spec fn vsub(x: int, y: int) -> int {
        mod_sub(x, y, P as int)
    }

    open spec fn vmul(x: int, y: int) -> int {
        mod_mul(x, y, P as int)
    }

    open spec fn vneg(x: int) -> int {
        mod_neg(x, P as int)
    }

    open spec fn vpow(x: int, n: nat) -> int {
        mod_pow(x, n, P as int)
    }

    open spec fn inv_exponent() -> nat {
        (P - 2) as nat
    }

    proof fn lemma_pow_unfold(x: int, n: nat) {
    }

    proof fn lemma_order() {
    }

    proof fn lemma_value_in_field(a: Self) {
    }

    proof fn lemma_closed(x: int, y: int) {
        lemma_mod_closed(x, y, P as int);
    }

    proof fn lemma_odd_inverse_or_char_two() {
    }

    proof fn lemma_add_laws(x: int, y: int, z: int) {
        lemma_mod_add_laws(x, y, z, P as int);
    }

    proof fn lemma_mul_laws(x: int, y: int, z: int) {
        lemma_mod_mul_laws(x, y, z, P as int);
    }

    fn zero() -> (r: Self) {
        BabyBear(0)
    }

    fn one() -> (r: Self) {
        BabyBear(1)
    }

    fn add(self, rhs: Self) -> (r: Self) {
        proof {
            use_type_invariant(&self);
            use_type_invariant(&rhs);
        }
        BabyBear((self.0 + rhs.0) % P)
    }

    fn sub(self, rhs: Self) -> (r: Self) {
        proof {
            use_type_invariant(&self);
            use_type_invariant(&rhs);
        }
        BabyBear((self.0 + P - rhs.0) % P)
    }

    fn mul(self, rhs: Self) -> (r: Self) {
        proof {
            use_type_invariant(&self);
            use_type_invariant(&rhs);
            assert(self.0 * rhs.0 < P * P) by (nonlinear_arith)
                requires self.0 < P, rhs.0 < P;
        }
        BabyBear((self.0 * rhs.0) % P)
    }

    fn neg(self) -> (r: Self) {
        proof {
            use_type_invariant(&self);
        }
        if self.0 == 0 {
            BabyBear(0)
        } else {
            BabyBear(P - self.0)
        }
    }

    fn equals(self, rhs: Self) -> (r: bool) {
        proof {
            use_type_invariant(&self);
            use_type_invariant(&rhs);
        }
        self.0 == rhs.0
    }

    fn inv(self) -> (r: Result<Self, Error>) {
        proof {
            use_type_invariant(&self);
        }
        if self.0 == 0 {
            Err(Error::DivisionByZero)
        } else {
            Ok(self.pow(P - 2))
        }
    }

    fn pow(self, exp: u64) -> (r: Self) {
        iterative_pow(self, exp)
    }
}

} // verus!

verus! {

fn iterative_pow(base: BabyBear, exp: u64) -> (r: BabyBear)
    ensures
        r@ == mod_pow(base@, exp as nat, P as int),
{
    let ghost x = base@;
    let mut acc = BabyBear::one();
    let mut i: u32 = 64;
    while i > 0
        invariant
            i <= 64,
            x == base@,
            0 <= x < P,
            acc@ == mod_pow(x, shr_or_zero(exp, i), P as int),
        decreases i,
    {
        i = i - 1;
        proof {
            lemma_shr_step(exp, i);
            lemma_mod_pow_step(x, shr_or_zero(exp, (i + 1) as u32), ((exp >> (i as u64)) & 1) as nat, P as int);
        }
        let squared = acc.mul(acc);
        if (exp >> i) & 1 == 1 {
            acc = squared.mul(base);
        } else {
            acc = squared;
        }
    }
    proof {
        lemma_shr_zero(exp);
    }
    acc
}

} // verus!

verus! {

impl From<u64> for BabyBear {
    fn from(val: u64) -> (r: Self) {
        BabyBear(val % P)
    }
}

impl vstd::std_specs::convert::FromSpecImpl<u64> for BabyBear {
    open spec fn obeys_from_spec() -> bool {
        true
    }

    closed spec fn from_spec(v: u64) -> Self {
        BabyBear((v as u64) % P)
    }
}

impl From<u32> for BabyBear {
    fn from(val: u32) -> (r: Self) {
        BabyBear(u64::from(val) % P)
    }
}

impl vstd::std_specs::convert::FromSpecImpl<u32> for BabyBear {
    open spec fn obeys_from_spec() -> bool {
        true
    }

    closed spec fn from_spec(v: u32) -> Self {
        BabyBear((v as u64) % P)
    }
}

impl From<BabyBear> for u64 {
    fn from(val: BabyBear) -> (r: u64) {
        val.0
    }
}

impl vstd::std_specs::convert::FromSpecImpl<BabyBear> for u64 {
    open spec fn obeys_from_spec() -> bool {
        true
    }

    closed spec fn from_spec(v: BabyBear) -> u64 {
        v.0
    }
}

impl BabyBear {
    /// Converting an integer gives its residue modulo the field order.
    pub proof fn lemma_from_int(v: u64, w: u32)
        ensures
            <BabyBear as vstd::std_specs::convert::FromSpec<u64>>::from_spec(v)@ == (v as int) % (P as int),
            <BabyBear as vstd::std_specs::convert::FromSpec<u32>>::from_spec(w)@ == (w as int) % (P as int),
    {
        vstd::arithmetic::div_mod::lemma_mod_twice(v as int, P as int);
        vstd::arithmetic::div_mod::lemma_mod_twice(w as int, P as int);
    }

    /// Converting back to an integer gives a representative of the value.
    pub proof fn lemma_into_int(a: BabyBear)
        ensures
            <u64 as vstd::std_specs::convert::FromSpec<BabyBear>>::from_spec(a) as int % (P as int) == a@,
    {
    }
}

/// `x` squared `k` times, modulo `P`.
pub open spec fn square_iter(x: int, k: nat) -> int
    decreases k,
{
    if k == 0 {
        x
    } else {
        let y = square_iter(x, (k - 1) as nat);
        mod_mul(y, y, P as int)
    }
}

proof fn lemma_generator_value()
    ensures
        mod_pow(31, 15, P as int) == 440564289,
{
    assert(mod_pow(31, 0, P as int) == 1);
    assert(mod_pow(31, 1, P as int) == 31);
    assert(mod_pow(31, 2, P as int) == 961);
    assert(mod_pow(31, 3, P as int) == 29791);
    assert(mod_pow(31, 4, P as int) == 923521);
    assert(mod_pow(31, 5, P as int) == 28629151);
    assert(mod_pow(31, 6, P as int) == 887503681);
    assert(mod_pow(31, 7, P as int) == 1340157138);
    assert(mod_pow(31, 8, P as int) == 1279552858);
    assert(mod_pow(31, 9, P as int) == 1414086099);
    assert(mod_pow(31, 10, P as int) == 1558084728);
    assert(mod_pow(31, 11, P as int) == 1995510385);
    assert(mod_pow(31, 12, P as int) == 1462844305);
    assert(mod_pow(31, 13, P as int) == 1056323193);
    assert(mod_pow(31, 14, P as int) == 533764247);
    assert(mod_pow(31, 15, P as int) == 440564289);
}

proof fn lemma_orbit_1()
    ensures
        square_iter(440564289, 9) == 1559589183int,
{
    assert(square_iter(440564289, 0) == 440564289int);
    assert(square_iter(440564289, 1) == 975630072int);
    assert(square_iter(440564289, 2) == 1149491290int);
    assert(square_iter(440564289, 3) == 1003846038int);
    assert(square_iter(440564289, 4) == 1267047229int);
    assert(square_iter(440564289, 5) == 570250684int);
    assert(square_iter(440564289, 6) == 414040701int);
    assert(square_iter(440564289, 7) == 195061667int);
    assert(square_iter(440564289, 8) == 1049899240int);
    assert(square_iter(440564289, 9) == 1559589183int);
}

proof fn lemma_orbit_2()
    ensures
        square_iter(440564289, 18) == 1753498361int,
{
    lemma_orbit_1();
    assert(square_iter(440564289, 10) == 1286330022int);
    assert(square_iter(440564289, 11) == 1421947380int);
    assert(square_iter(440564289, 12) == 2009781145int);
    assert(square_iter(440564289, 13) == 1657000625int);
    assert(square_iter(440564289, 14) == 298008106int);
    assert(square_iter(440564289, 15) == 1282623253int);
    assert(square_iter(440564289, 16) == 1340477990int);
    assert(square_iter(440564289, 17) == 341742893int);
    assert(square_iter(440564289, 18) == 1753498361int);
}

proof fn lemma_orbit_3()
    ensures
        square_iter(440564289, 26) == 2013265920int,
        square_iter(440564289, 27) == 1int,
{
    lemma_orbit_2();
    assert(square_iter(440564289, 19) == 1732600167int);
    assert(square_iter(440564289, 20) == 397765732int);
    assert(square_iter(440564289, 21) == 1721589904int);
    assert(square_iter(440564289, 22) == 760005850int);
    assert(square_iter(440564289, 23) == 196396260int);
    assert(square_iter(440564289, 24) == 1592366214int);
    assert(square_iter(440564289, 25) == 1728404513int);
    assert(square_iter(440564289, 26) == 2013265920int);
    assert(square_iter(440564289, 27) == 1int);
}

/// Squaring `k` times is raising to the power `2^k`.
proof fn lemma_square_iter_power(x: int, k: nat)
    requires
        0 <= x < P,
    ensures
        square_iter(x, k) == mod_pow(x, pow2(k), P as int),
    decreases k,
{
    if k == 0 {
        lemma2_to64();
        reveal_with_fuel(mod_pow, 2);
        lemma_small_mod(x as nat, P as nat);
    } else {
        let k1 = (k - 1) as nat;
        lemma_square_iter_power(x, k1);
        lemma_pow2_unfold(k);
        lemma_mod_pow_add(x, pow2(k1), pow2(k1), P as int);
    }
}

/// `(x^a)^b == x^(a b)`.
proof fn lemma_mod_pow_mul(x: int, a: nat, b: nat)
    requires
        0 <= x < P,
    ensures
        mod_pow(mod_pow(x, a, P as int), b, P as int) == mod_pow(x, a * b, P as int),
    decreases b,
{
    if b == 0 {
        assert(a * b == 0) by (nonlinear_arith)
            requires
                b == 0,
        ;
    } else {
        let b1 = (b - 1) as nat;
        lemma_mod_pow_mul(x, a, b1);
        lemma_mod_pow_add(x, a, a * b1, P as int);
        assert(a + a * b1 == a * b) by (nonlinear_arith)
            requires
                b1 == b - 1,
        ;
    }
}

/// The principal roots of unity have the orders they are named for: the
/// value of `root_of_unity(log_n)` raised to `2^log_n` is one, and for
/// `log_n >= 1` raised to `2^(log_n - 1)` it is `-1`. For `log_n == 27`
/// this is the generator `31^15`, of order `2^27`.
pub proof fn lemma_root_of_unity_order(log_n: nat)
    requires
        log_n <= TWO_ADIC_ORDER,
    ensures
        ({
            let w = mod_pow(mod_pow(31, 15, P as int), pow2((TWO_ADIC_ORDER - log_n) as nat), P as int);
            &&& mod_pow(w, pow2(log_n), P as int) == 1
            &&& log_n >= 1 ==> mod_pow(w, pow2((log_n - 1) as nat), P as int) == P - 1
        }),
{
    let g = mod_pow(31, 15, P as int);
    lemma_generator_value();
    let e = (TWO_ADIC_ORDER - log_n) as nat;
    lemma_orbit_3();
    lemma_square_iter_power(g, 27);
    lemma_square_iter_power(g, 26);
    lemma_mod_pow_mul(g, pow2(e), pow2(log_n));
    lemma_pow2_adds(e, log_n);
    assert(e + log_n == 27);
    if log_n >= 1 {
        lemma_mod_pow_mul(g, pow2(e), pow2((log_n - 1) as nat));
        lemma_pow2_adds(e, (log_n - 1) as nat);
        assert(e + (log_n - 1) == 26);
    }
}

} // verus!
