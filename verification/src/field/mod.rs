//! The field abstraction shared by every protocol in the crate.
//!
//! A field element is modelled by its canonical integer `value()`, which
//! always lies in `[0, order())`.  Each field supplies its operations on
//! those integers (`vadd`, `vmul`, ...) and proves the field laws about
//! them; generic code is specified and verified against these laws only.

use vstd::prelude::*;

pub mod algebra;
pub mod binary_tower;
pub mod error;
pub mod modp;
pub mod sums;
pub mod babybear;
pub mod goldilocks;
pub mod mersenne31;

pub use self::error::Error;
pub use self::babybear::BabyBear;
pub use self::goldilocks::Goldilocks;
pub use self::mersenne31::Mersenne31;
pub use self::binary_tower::BinaryField8;

verus! {

/// A canonical value of the field `F`.
pub open spec fn in_field<F: Field>(x: int) -> bool {
    0 <= x < F::order()
}

/// The canonical values of a sequence of field elements.
pub open spec fn values<F: Field>(s: Seq<F>) -> Seq<int> {
    s.map_values(|x: F| x@)
}

/// `x` raised to the `n`-th power.
pub open spec fn vpow<F: Field>(x: int, n: nat) -> int {
    F::vpow(x, n)
}

/// Elements are viewed as their canonical integer, in `[0, order())`.
pub trait Field: Sized + Copy + View<V = int> {
    /// The number of elements of the field.
    spec fn order() -> int;

    spec fn vadd(x: int, y: int) -> int;

    spec fn vsub(x: int, y: int) -> int;

    spec fn vmul(x: int, y: int) -> int;

    spec fn vneg(x: int) -> int;

    /// `x` raised to the `n`-th power.
    spec fn vpow(x: int, n: nat) -> int;

    /// The exponent `e` with `x^e == x^(-1)` for every nonzero `x`.
    spec fn inv_exponent() -> nat;

    proof fn lemma_pow_unfold(x: int, n: nat)
        ensures
            Self::vpow(x, 0) == 1,
            n > 0 ==> Self::vpow(x, n) == Self::vmul(x, Self::vpow(x, (n - 1) as nat));

    proof fn lemma_order()
        ensures
            Self::order() > 1;

    proof fn lemma_value_in_field(a: Self)
        ensures
            0 <= a@ < Self::order();

    proof fn lemma_closed(x: int, y: int)
        requires
            0 <= x < Self::order(),
            0 <= y < Self::order(),
        ensures
            0 <= Self::vadd(x, y) < Self::order(),
            0 <= Self::vsub(x, y) < Self::order(),
            0 <= Self::vmul(x, y) < Self::order(),
            0 <= Self::vneg(x) < Self::order();

    /// The inverse exponent is odd, or `-1 == 1`; either way `-1` is its
    /// own inverse.
    proof fn lemma_odd_inverse_or_char_two()
        ensures
            Self::inv_exponent() % 2 == 1 || Self::vneg(1) == 1;

    /// Addition is commutative and associative, with identity 0 and inverses.
    proof fn lemma_add_laws(x: int, y: int, z: int)
        requires
            0 <= x < Self::order(),
            0 <= y < Self::order(),
            0 <= z < Self::order(),
        ensures
            Self::vadd(x, y) == Self::vadd(y, x),
            Self::vadd(Self::vadd(x, y), z) == Self::vadd(x, Self::vadd(y, z)),
            Self::vadd(x, 0) == x,
            Self::vadd(x, Self::vneg(x)) == 0,
            Self::vneg(Self::vneg(x)) == x,
            Self::vsub(x, y) == Self::vadd(x, Self::vneg(y));

    /// Multiplication is commutative and associative, with identity 1,
    /// absorbing 0, and distributes over addition.
    proof fn lemma_mul_laws(x: int, y: int, z: int)
        requires
            0 <= x < Self::order(),
            0 <= y < Self::order(),
            0 <= z < Self::order(),
        ensures
            Self::vmul(x, y) == Self::vmul(y, x),
            Self::vmul(Self::vmul(x, y), z) == Self::vmul(x, Self::vmul(y, z)),
            Self::vmul(x, 1) == x,
            Self::vmul(x, 0) == 0,
            Self::vmul(x, Self::vadd(y, z)) == Self::vadd(Self::vmul(x, y), Self::vmul(x, z));

    fn zero() -> (r: Self)
        ensures
            r@ == 0;

    fn one() -> (r: Self)
        ensures
            r@ == 1;

    fn add(self, rhs: Self) -> (r: Self)
        ensures
            r@ == Self::vadd(self@, rhs@);

    fn sub(self, rhs: Self) -> (r: Self)
        ensures
            r@ == Self::vsub(self@, rhs@);

    fn mul(self, rhs: Self) -> (r: Self)
        ensures
            r@ == Self::vmul(self@, rhs@);

    fn neg(self) -> (r: Self)
        ensures
            r@ == Self::vneg(self@);

    /// Compares two elements.
    fn equals(self, rhs: Self) -> (r: bool)
        ensures
            r == (self@ == rhs@);

    /// The multiplicative inverse, `x^inv_exponent()`; zero has none.
    fn inv(self) -> (r: Result<Self, Error>)
        ensures
            self@ == 0 ==> r == Err::<Self, Error>(Error::DivisionByZero),
            self@ != 0 ==> r is Ok && r->Ok_0@ == Self::vpow(self@, Self::inv_exponent());

    fn pow(self, exp: u64) -> (r: Self)
        ensures
            r@ == Self::vpow(self@, exp as nat);

    fn double(self) -> (r: Self)
        ensures
            r@ == Self::vadd(self@, self@),
    {
        self.add(self)
    }

    fn square(self) -> (r: Self)
        ensures
            r@ == Self::vmul(self@, self@),
    {
        self.mul(self)
    }
}

} // verus!

verus! {

pub proof fn lemma_pow_in_field<F: Field>(x: int, n: nat)
    requires
        in_field::<F>(x),
    ensures
        in_field::<F>(vpow::<F>(x, n)),
    decreases n,
{
    F::lemma_order();
    F::lemma_pow_unfold(x, n);
    if n > 0 {
        lemma_pow_in_field::<F>(x, (n - 1) as nat);
        F::lemma_closed(x, vpow::<F>(x, (n - 1) as nat));
    }
}

/// `x^3 == x * x * x`.
pub proof fn lemma_pow_three<F: Field>(x: int)
    requires
        in_field::<F>(x),
    ensures
        vpow::<F>(x, 3) == F::vmul(F::vmul(x, x), x),
{
    F::lemma_order();
    F::lemma_pow_unfold(x, 3);
    F::lemma_pow_unfold(x, 2);
    F::lemma_pow_unfold(x, 1);
    F::lemma_pow_unfold(x, 0);
    F::lemma_mul_laws(x, 1, 0);
    F::lemma_closed(x, x);
    F::lemma_mul_laws(x, x, x);
    F::lemma_mul_laws(F::vmul(x, x), x, 0);
}

/// `x^(a + b) == x^a * x^b`.
pub proof fn lemma_pow_add<F: Field>(x: int, a: nat, b: nat)
    requires
        in_field::<F>(x),
    ensures
        vpow::<F>(x, a + b) == F::vmul(vpow::<F>(x, a), vpow::<F>(x, b)),
    decreases a,
{
    F::lemma_order();
    F::lemma_pow_unfold(x, a);
    F::lemma_pow_unfold(x, a + b);
    lemma_pow_in_field::<F>(x, b);
    if a == 0 {
        F::lemma_mul_laws(vpow::<F>(x, b), 1, 0);
        assert(vpow::<F>(x, 0) == 1);
    } else {
        let a1 = (a - 1) as nat;
        lemma_pow_add::<F>(x, a1, b);
        lemma_pow_in_field::<F>(x, a1);
        F::lemma_mul_laws(x, vpow::<F>(x, a1), vpow::<F>(x, b));
        assert((a1 + b) + 1 == a + b);
        assert(vpow::<F>(x, a + b) == F::vmul(x, vpow::<F>(x, (a + b - 1) as nat)));
    }
}

} // verus!

verus! {

/// The field sum of a sequence of values, added from the front.
pub open spec fn sum_values<F: Field>(s: Seq<int>) -> int
    decreases s.len(),
{
    if s.len() == 0 {
        0
    } else {
        F::vadd(sum_values::<F>(s.drop_last()), s.last())
    }
}

/// Every entry is a canonical value of the field.
pub open spec fn all_in_field<F: Field>(s: Seq<int>) -> bool {
    forall|i: int| 0 <= i < s.len() ==> #[trigger] in_field::<F>(s[i])
}

pub proof fn lemma_values_in_field<F: Field>(s: Seq<F>)
    ensures
        all_in_field::<F>(values(s)),
        values(s).len() == s.len(),
{
    assert forall|i: int| 0 <= i < values(s).len() implies #[trigger] in_field::<F>(values(s)[i]) by {
        F::lemma_value_in_field(s[i]);
    }
}

pub proof fn lemma_sum_in_field<F: Field>(s: Seq<int>)
    requires
        all_in_field::<F>(s),
    ensures
        in_field::<F>(sum_values::<F>(s)),
    decreases s.len(),
{
    F::lemma_order();
    if s.len() > 0 {
        assert(in_field::<F>(s[s.len() - 1]));
        assert forall|i: int| 0 <= i < s.drop_last().len() implies #[trigger] in_field::<F>(s.drop_last()[i]) by {
            assert(in_field::<F>(s[i]));
        }
        lemma_sum_in_field::<F>(s.drop_last());
        F::lemma_closed(sum_values::<F>(s.drop_last()), s.last());
    }
}

/// The field element `1 + 1 + ... + 1` (`n` ones), added from zero.
pub open spec fn of_nat<F: Field>(n: nat) -> int
    decreases n,
{
    if n == 0 {
        0
    } else {
        F::vadd(of_nat::<F>((n - 1) as nat), 1)
    }
}

pub proof fn lemma_of_nat_in_field<F: Field>(n: nat)
    ensures
        0 <= of_nat::<F>(n) < F::order(),
    decreases n,
{
    F::lemma_order();
    if n > 0 {
        lemma_of_nat_in_field::<F>((n - 1) as nat);
        F::lemma_closed(of_nat::<F>((n - 1) as nat), 1);
    }
}

} // verus!
