use vstd::prelude::*;

use super::error::Error;
use crate::field::{in_field, lemma_values_in_field, sum_values, values, Field};
use super::laws::{lemma_mul_evaluates, product_coeffs};
use crate::util::copy_vec;

verus! {

/// `c[0] + c[1] x + c[2] x^2 + ...`, by Horner's rule.
pub open spec fn horner<F: Field>(c: Seq<int>, x: int) -> int
    decreases c.len(),
{
    if c.len() == 0 {
        0
    } else {
        F::vadd(F::vmul(horner::<F>(c.drop_first(), x), x), c[0])
    }
}

/// The index of the last nonzero entry among the first `n`, or 0.
pub open spec fn last_nonzero(c: Seq<int>, n: int) -> nat
    decreases n,
{
    if n <= 0 {
        0
    } else if c[n - 1] != 0 {
        (n - 1) as nat
    } else {
        last_nonzero(c, n - 1)
    }
}

/// The degree is the largest index of a nonzero coefficient: when some
/// coefficient is nonzero, the one at the degree is, and every coefficient
/// above the degree is zero; the zero polynomial has degree 0.
pub proof fn lemma_degree_is_last_nonzero(c: Seq<int>)
    ensures
        (exists|j: int| 0 <= j < c.len() && #[trigger] c[j] != 0) ==> last_nonzero(c, c.len() as int) < c.len()
            && c[last_nonzero(c, c.len() as int) as int] != 0,
        forall|j: int| last_nonzero(c, c.len() as int) < j < c.len() ==> #[trigger] c[j] == 0,
        (forall|j: int| 0 <= j < c.len() ==> #[trigger] c[j] == 0) ==> last_nonzero(c, c.len() as int) == 0,
{
    lemma_last_nonzero_prefix(c, c.len() as int);
}

proof fn lemma_last_nonzero_prefix(c: Seq<int>, n: int)
    requires
        0 <= n <= c.len(),
    ensures
        (exists|j: int| 0 <= j < n && #[trigger] c[j] != 0) ==> last_nonzero(c, n) < n && c[last_nonzero(c, n) as int] != 0,
        forall|j: int| last_nonzero(c, n) < j < n ==> #[trigger] c[j] == 0,
        (forall|j: int| 0 <= j < n ==> #[trigger] c[j] == 0) ==> last_nonzero(c, n) == 0,
    decreases n,
{
    if n > 0 && c[n - 1] == 0 {
        lemma_last_nonzero_prefix(c, n - 1);
        if exists|j: int| 0 <= j < n && #[trigger] c[j] != 0 {
            let j = choose|j: int| 0 <= j < n && #[trigger] c[j] != 0;
            assert(j < n - 1);
        }
    }
}

/// Coefficient `i`, with zero past the end.
pub open spec fn coeff_or_zero(c: Seq<int>, i: int) -> int {
    if 0 <= i < c.len() {
        c[i]
    } else {
        0
    }
}

/// Coefficient `k` of the product of `a` and `b` (both nonempty):
/// `sum_{i + j == k} a[i] * b[j]`.
pub open spec fn product_coeff<F: Field>(a: Seq<int>, b: Seq<int>, k: int) -> int {
    let lo = if k - (b.len() - 1) > 0 {
        k - (b.len() - 1)
    } else {
        0
    };
    let hi = if k < a.len() - 1 {
        k
    } else {
        a.len() - 1
    };
    sum_values::<F>(Seq::new((hi - lo + 1) as nat, |j: int| F::vmul(a[lo + j], b[k - (lo + j)])))
}

#[derive(Debug)]
pub struct UnivariatePoly<F> {
    coeffs: Vec<F>,
}

impl<F: Field> View for UnivariatePoly<F> {
    type V = Seq<int>;

    /// The coefficient values, constant term first.
    closed spec fn view(&self) -> Seq<int> {
        values(self.coeffs@)
    }
}

impl<F: Field> UnivariatePoly<F> {
    pub fn from_coeffs(coeffs: Vec<F>) -> (r: Result<Self, Error>)
        ensures
            coeffs@.len() == 0 ==> r == Err::<Self, Error>(Error::EmptyCoefficients),
            coeffs@.len() > 0 ==> r is Ok && r->Ok_0@ == values(coeffs@),
    {
        if coeffs.len() == 0 {
            Err(Error::EmptyCoefficients)
        } else {
            Ok(Self { coeffs })
        }
    }

    pub fn zero_poly() -> (r: Self)
        ensures
            r@ == seq![0int],
    {
        let z = F::zero();
        let r = Self { coeffs: vec![z] };
        proof {
            assert(values(r.coeffs@) =~= seq![0int]);
        }
        r
    }

    pub fn constant(val: F) -> (r: Self)
        ensures
            r@ == seq![val@],
    {
        let r = Self { coeffs: vec![val] };
        proof {
            assert(values(r.coeffs@) =~= seq![val@]);
        }
        r
    }

    /// The index of the last nonzero coefficient (0 for the zero polynomial).
    pub fn degree(&self) -> (r: usize)
        ensures
            r == last_nonzero(self@, self@.len() as int),
            (exists|j: int| 0 <= j < self@.len() && #[trigger] self@[j] != 0) ==> r < self@.len() && self@[r as int]
                != 0,
            forall|j: int| r < j < self@.len() ==> #[trigger] self@[j] == 0,
            (forall|j: int| 0 <= j < self@.len() ==> #[trigger] self@[j] == 0) ==> r == 0,
    {
        proof {
            lemma_degree_is_last_nonzero(self@);
        }
        let zero = F::zero();
        let mut n: usize = self.coeffs.len();
        while n > 0
            invariant
                n <= self.coeffs@.len(),
                zero@ == 0,
                last_nonzero(self@, self@.len() as int) == last_nonzero(self@, n as int),
            decreases n,
        {
            if !self.coeffs[n - 1].equals(zero) {
                proof {
                    lemma_degree_is_last_nonzero(self@);
                }
                return n - 1;
            }
            n = n - 1;
        }
        0
    }

    pub fn num_coeffs(&self) -> (r: usize)
        ensures
            r == self@.len(),
    {
        self.coeffs.len()
    }

    pub fn coeff(&self, index: usize) -> (r: Result<F, Error>)
        ensures
            index < self@.len() ==> r is Ok && r->Ok_0@ == self@[index as int],
            index >= self@.len() ==> r == Err::<F, Error>(
                Error::IndexOutOfBounds { index, len: self@.len() as usize },
            ),
    {
        if index < self.coeffs.len() {
            Ok(self.coeffs[index])
        } else {
            Err(Error::IndexOutOfBounds { index, len: self.coeffs.len() })
        }
    }

    /// The value at `point`, by Horner's rule.
    pub fn evaluate(&self, point: F) -> (r: F)
        ensures
            r@ == horner::<F>(self@, point@),
    {
        let ghost c = values(self.coeffs@);
        let mut acc = F::zero();
        let mut i: usize = self.coeffs.len();
        proof {
            assert(c.skip(i as int) =~= Seq::<int>::empty());
        }
        while i > 0
            invariant
                i <= self.coeffs@.len(),
                c == values(self.coeffs@),
                acc@ == horner::<F>(c.skip(i as int), point@),
            decreases i,
        {
            proof {
                let s = c.skip(i - 1);
                assert(s.drop_first() =~= c.skip(i as int));
                assert(s[0] == c[i - 1]);
            }
            acc = acc.mul(point).add(self.coeffs[i - 1]);
            i = i - 1;
        }
        proof {
            assert(c.skip(0) =~= c);
        }
        acc
    }

    pub fn into_coeffs(self) -> (r: Vec<F>)
        ensures
            values(r@) == self@,
    {
        self.coeffs
    }

    /// Coefficient-wise sum, the shorter polynomial padded with zeros.
    pub fn add(self, rhs: Self) -> (r: Self)
        ensures
            r@.len() == if self@.len() >= rhs@.len() {
                self@.len()
            } else {
                rhs@.len()
            },
            forall|i: int|
                0 <= i < r@.len() ==> #[trigger] r@[i] == F::vadd(
                    coeff_or_zero(self@, i),
                    coeff_or_zero(rhs@, i),
                ),
    {
        let max_len = if self.coeffs.len() >= rhs.coeffs.len() {
            self.coeffs.len()
        } else {
            rhs.coeffs.len()
        };
        let zero = F::zero();
        let mut coeffs: Vec<F> = Vec::new();
        let mut i: usize = 0;
        while i < max_len
            invariant
                max_len == if self.coeffs@.len() >= rhs.coeffs@.len() {
                    self.coeffs@.len()
                } else {
                    rhs.coeffs@.len()
                },
                zero@ == 0,
                i <= max_len,
                coeffs@.len() == i,
                forall|j: int|
                    0 <= j < i ==> #[trigger] coeffs@[j]@ == F::vadd(
                        coeff_or_zero(values(self.coeffs@), j),
                        coeff_or_zero(values(rhs.coeffs@), j),
                    ),
            decreases max_len - i,
        {
            let a = if i < self.coeffs.len() {
                self.coeffs[i]
            } else {
                zero
            };
            let b = if i < rhs.coeffs.len() {
                rhs.coeffs[i]
            } else {
                zero
            };
            coeffs.push(a.add(b));
            i = i + 1;
        }
        Self { coeffs }
    }

    /// Coefficient-wise difference, the shorter polynomial padded with zeros.
    pub fn sub(self, rhs: Self) -> (r: Self)
        ensures
            r@.len() == if self@.len() >= rhs@.len() {
                self@.len()
            } else {
                rhs@.len()
            },
            forall|i: int|
                0 <= i < r@.len() ==> #[trigger] r@[i] == F::vsub(
                    coeff_or_zero(self@, i),
                    coeff_or_zero(rhs@, i),
                ),
    {
        let max_len = if self.coeffs.len() >= rhs.coeffs.len() {
            self.coeffs.len()
        } else {
            rhs.coeffs.len()
        };
        let zero = F::zero();
        let mut coeffs: Vec<F> = Vec::new();
        let mut i: usize = 0;
        while i < max_len
            invariant
                max_len == if self.coeffs@.len() >= rhs.coeffs@.len() {
                    self.coeffs@.len()
                } else {
                    rhs.coeffs@.len()
                },
                zero@ == 0,
                i <= max_len,
                coeffs@.len() == i,
                forall|j: int|
                    0 <= j < i ==> #[trigger] coeffs@[j]@ == F::vsub(
                        coeff_or_zero(values(self.coeffs@), j),
                        coeff_or_zero(values(rhs.coeffs@), j),
                    ),
            decreases max_len - i,
        {
            let a = if i < self.coeffs.len() {
                self.coeffs[i]
            } else {
                zero
            };
            let b = if i < rhs.coeffs.len() {
                rhs.coeffs[i]
            } else {
                zero
            };
            coeffs.push(a.sub(b));
            i = i + 1;
        }
        Self { coeffs }
    }

    /// Coefficient-wise negation.
    pub fn neg(self) -> (r: Self)
        ensures
            r@.len() == self@.len(),
            forall|i: int| 0 <= i < r@.len() ==> #[trigger] r@[i] == F::vneg(self@[i]),
    {
        let mut coeffs: Vec<F> = Vec::new();
        let mut i: usize = 0;
        while i < self.coeffs.len()
            invariant
                i <= self.coeffs@.len(),
                coeffs@.len() == i,
                forall|j: int| 0 <= j < i ==> #[trigger] coeffs@[j]@ == F::vneg(self.coeffs@[j]@),
            decreases self.coeffs@.len() - i,
        {
            coeffs.push(self.coeffs[i].neg());
            i = i + 1;
        }
        Self { coeffs }
    }

    /// The product, by convolution of the coefficients; an empty operand
    /// gives the zero polynomial.
    pub fn mul(self, rhs: Self) -> (r: Self)
        requires
            self@.len() + rhs@.len() <= usize::MAX,
        ensures
            self@.len() == 0 || rhs@.len() == 0 ==> r@ == seq![0int],
            self@.len() > 0 && rhs@.len() > 0 ==> r@.len() == self@.len() + rhs@.len() - 1 && forall|k: int|
                0 <= k < r@.len() ==> #[trigger] r@[k] == product_coeff::<F>(self@, rhs@, k),
            self@.len() > 0 && rhs@.len() > 0 ==> forall|x: int|
                in_field::<F>(x) ==> #[trigger] horner::<F>(r@, x) == F::vmul(horner::<F>(self@, x), horner::<F>(rhs@, x)),
    {
        if self.coeffs.len() == 0 || rhs.coeffs.len() == 0 {
            return Self::zero_poly();
        }
        let la = self.coeffs.len();
        let lb = rhs.coeffs.len();
        let ghost a = values(self.coeffs@);
        let ghost b = values(rhs.coeffs@);
        let result_len = la + lb - 1;
        let mut coeffs: Vec<F> = Vec::new();
        let mut k: usize = 0;
        while k < result_len
            invariant
                la == self.coeffs@.len() > 0,
                lb == rhs.coeffs@.len() > 0,
                a == values(self.coeffs@),
                b == values(rhs.coeffs@),
                result_len == la + lb - 1,
                k <= result_len,
                coeffs@.len() == k,
                forall|j: int| 0 <= j < k ==> #[trigger] coeffs@[j]@ == product_coeff::<F>(a, b, j),
            decreases result_len - k,
        {
            let lo = k.saturating_sub(lb - 1);
            let hi = if k < la - 1 {
                k
            } else {
                la - 1
            };
            let ghost terms = Seq::new(
                (hi - lo + 1) as nat,
                |j: int| F::vmul(a[lo + j], b[k - (lo + j)]),
            );
            let mut acc = F::zero();
            let mut i: usize = lo;
            while i <= hi
                invariant
                    lo <= i <= hi + 1,
                    hi < la,
                    k - lo < lb,
                    lo <= k,
                    hi <= k,
                    la == self.coeffs@.len(),
                    lb == rhs.coeffs@.len(),
                    a == values(self.coeffs@),
                    b == values(rhs.coeffs@),
                    terms == Seq::new(
                        (hi - lo + 1) as nat,
                        |j: int| F::vmul(a[lo + j], b[k - (lo + j)]),
                    ),
                    acc@ == sum_values::<F>(terms.subrange(0, i - lo)),
                decreases hi + 1 - i,
            {
                proof {
                    assert(terms.subrange(0, i + 1 - lo).drop_last() =~= terms.subrange(0, i - lo));
                }
                acc = acc.add(self.coeffs[i].mul(rhs.coeffs[k - i]));
                i = i + 1;
            }
            proof {
                assert(terms.subrange(0, i - lo) =~= terms);
            }
            coeffs.push(acc);
            k = k + 1;
        }
        let r = Self { coeffs };
        proof {
            assert(r@ =~= product_coeffs::<F>(a, b));
            lemma_values_in_field::<F>(self.coeffs@);
            lemma_values_in_field::<F>(rhs.coeffs@);
            assert forall|x: int| in_field::<F>(x) implies #[trigger] horner::<F>(r@, x) == F::vmul(
                horner::<F>(a, x),
                horner::<F>(b, x),
            ) by {
                lemma_mul_evaluates::<F>(a, b, x);
            }
        }
        r
    }
}

impl<F: Field> Clone for UnivariatePoly<F> {
    fn clone(&self) -> (r: Self)
        ensures
            r@ == self@,
    {
        Self { coeffs: copy_vec(&self.coeffs) }
    }
}

} // verus!
