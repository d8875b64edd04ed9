//! LogUp lookup claims: `sum_i 1/(beta - v_i) - sum_i m_i/(beta - t_i)`,
//! which is zero for a valid lookup, reduced by sumcheck over a table of the
//! differences.

use vstd::prelude::*;
use vstd::arithmetic::power2::{is_pow2, pow2};

use super::error::Error;
use super::interp::field_from_usize;
use crate::field::{all_in_field, in_field, lemma_of_nat_in_field, lemma_pow_in_field, of_nat};
use crate::field::algebra::{lemma_mul_distrib_right, lemma_sub_add};
use crate::field::sums::{fsum, lemma_fsum_add, lemma_fsum_ext, lemma_fsum_in_field, lemma_fsum_single, lemma_fsum_zero};
use crate::poly::laws::lemma_sum_values_is_fsum;
use super::{SumcheckClaim, SumcheckFunction};
use crate::field::{sum_values, values, Field};
use crate::poly::multilinear::{fold_table, MultilinearPoly};
use crate::util::{is_power_of_two, log2_exact};

verus! {

/// The value at `t` of the line through `(0, e0)` and `(1, e1)`:
/// `e0 + (e1 - e0) * t`.
pub open spec fn logup_point<F: Field>(e0: int, e1: int, t: nat) -> int {
    F::vadd(e0, F::vmul(F::vsub(e1, e0), of_nat::<F>(t)))
}

/// `sum_{i < k}` of the products of the numerator and denominator values
/// of pair `i` at point `t`.
pub open spec fn logup_sum<F: Field>(n: Seq<int>, d: Seq<int>, t: nat, k: nat) -> int
    decreases k,
{
    if k == 0 {
        0
    } else {
        F::vadd(
            logup_sum::<F>(n, d, t, (k - 1) as nat),
            F::vmul(
                logup_point::<F>(n[2 * (k - 1)], n[2 * (k - 1) + 1], t),
                logup_point::<F>(d[2 * (k - 1)], d[2 * (k - 1) + 1], t),
            ),
        )
    }
}

fn eval_at<F: Field>(e0: F, e1: F, t: usize) -> (r: F)
    ensures
        r@ == logup_point::<F>(e0@, e1@, t as nat),
{
    e0.add(e1.sub(e0).mul(field_from_usize::<F>(t)))
}

/// Numerator and denominator tables of a lookup argument.
#[derive(Debug)]
pub struct LogUpWitness<F: Field> {
    numerators: MultilinearPoly<F>,
    denominators: MultilinearPoly<F>,
}

impl<F: Field> View for LogUpWitness<F> {
    type V = ((nat, Seq<int>), (nat, Seq<int>));

    closed spec fn view(&self) -> ((nat, Seq<int>), (nat, Seq<int>)) {
        (self.numerators@, self.denominators@)
    }
}

impl<F: Field> LogUpWitness<F> {
    /// The denominators have at least as many values as the numerators.
    #[verifier::type_invariant]
    closed spec fn covers(self) -> bool {
        self.numerators@.1.len() <= self.denominators@.1.len()
    }

    pub fn new(numerators: MultilinearPoly<F>, denominators: MultilinearPoly<F>) -> (r: Self)
        requires
            numerators@.1.len() <= denominators@.1.len(),
        ensures
            r@ == (numerators@, denominators@),
    {
        Self { numerators, denominators }
    }
}

impl<F: Field> SumcheckFunction for LogUpWitness<F> {
    type F = F;

    open spec fn spec_num_vars(w: ((nat, Seq<int>), (nat, Seq<int>))) -> nat {
        w.0.0
    }

    open spec fn spec_round_poly_degree(w: ((nat, Seq<int>), (nat, Seq<int>))) -> nat {
        2
    }

    open spec fn spec_round_poly_evals(w: ((nat, Seq<int>), (nat, Seq<int>))) -> Seq<int> {
        let half = w.0.1.len() / 2;
        seq![
            logup_sum::<F>(w.0.1, w.1.1, 0, half),
            logup_sum::<F>(w.0.1, w.1.1, 1, half),
            logup_sum::<F>(w.0.1, w.1.1, 2, half),
        ]
    }

    open spec fn spec_fix_variable(w: ((nat, Seq<int>), (nat, Seq<int>)), val: int) -> ((nat, Seq<int>), (nat, Seq<int>)) {
        (
            (
                if w.0.0 > 0 {
                    (w.0.0 - 1) as nat
                } else {
                    0
                },
                fold_table::<F>(w.0.1, val),
            ),
            (
                if w.1.0 > 0 {
                    (w.1.0 - 1) as nat
                } else {
                    0
                },
                fold_table::<F>(w.1.1, val),
            ),
        )
    }

    open spec fn spec_final_value(w: ((nat, Seq<int>), (nat, Seq<int>))) -> Option<int> {
        if w.0.1.len() > 0 && w.1.1.len() > 0 {
            Some(F::vmul(w.0.1[0], w.1.1[0]))
        } else {
            None
        }
    }

    fn num_vars(&self) -> (r: usize) {
        self.numerators.num_vars()
    }

    fn round_poly_degree(&self) -> (r: usize) {
        2
    }

    fn round_poly_evals(&self) -> (r: Vec<F>) {
        proof {
            use_type_invariant(self);
        }
        let len = self.numerators.num_evals();
        let half = len / 2;
        let n_evals = self.numerators.evals();
        let d_evals = self.denominators.evals();
        let ghost nv = values(n_evals@);
        let ghost dv = values(d_evals@);
        let mut out: Vec<F> = Vec::new();
        let mut t: usize = 0;
        while t < 3
            invariant
                len == n_evals@.len(),
                half == len / 2,
                half * 2 <= len,
                n_evals@.len() <= d_evals@.len(),
                nv == values(n_evals@),
                dv == values(d_evals@),
                t <= 3,
                out@.len() == t,
                forall|s: int| 0 <= s < t ==> #[trigger] values(out@)[s] == logup_sum::<F>(nv, dv, s as nat, half as nat),
            decreases 3 - t,
        {
            let mut acc = F::zero();
            let mut i: usize = 0;
            while i < half
                invariant
                    len == n_evals@.len(),
                    half == len / 2,
                    half * 2 <= len,
                    n_evals@.len() <= d_evals@.len(),
                    nv == values(n_evals@),
                    dv == values(d_evals@),
                    i <= half,
                    acc@ == logup_sum::<F>(nv, dv, t as nat, i as nat),
                decreases half - i,
            {
                let n_val = eval_at(n_evals[2 * i], n_evals[2 * i + 1], t);
                let d_val = eval_at(d_evals[2 * i], d_evals[2 * i + 1], t);
                acc = acc.add(n_val.mul(d_val));
                i = i + 1;
            }
            let ghost old_out = out@;
            out.push(acc);
            proof {
                assert(values(out@) =~= values(old_out).push(acc@));
            }
            t = t + 1;
        }
        proof {
            assert(values(out@) =~= Self::spec_round_poly_evals(self@));
        }
        out
    }

    fn fix_variable(self, val: F) -> (r: Self) {
        proof {
            use_type_invariant(&self);
        }
        let Self { numerators, denominators } = self;
        Self { numerators: numerators.fix_variable(val), denominators: denominators.fix_variable(val) }
    }

    fn final_value(&self) -> (r: Option<F>) {
        let n_evals = self.numerators.evals();
        let d_evals = self.denominators.evals();
        if n_evals.len() > 0 && d_evals.len() > 0 {
            Some(n_evals[0].mul(d_evals[0]))
        } else {
            None
        }
    }
}

/// `x^-1`, computed as `x^inv_exponent()`.
pub open spec fn inv_of<F: Field>(x: int) -> int {
    F::vpow(x, F::inv_exponent())
}

/// Entry `i` of the lookup difference: `1/(beta - v_i) - m_i/(beta - t_i)`.
pub open spec fn logup_terms<F: Field>(v: Seq<int>, t: Seq<int>, m: Seq<int>, beta: int) -> Seq<int> {
    Seq::new(
        v.len(),
        |i: int| F::vsub(inv_of::<F>(F::vsub(beta, v[i])), F::vmul(m[i], inv_of::<F>(F::vsub(beta, t[i])))),
    )
}

/// The challenge equals value `i` or table entry `i`.
pub open spec fn collides_at<F: Field>(v: Seq<int>, t: Seq<int>, beta: int, i: int) -> bool {
    F::vsub(beta, v[i]) == 0 || F::vsub(beta, t[i]) == 0
}

/// The challenge equals one of the first `n` values or table entries.
pub open spec fn logup_collides<F: Field>(v: Seq<int>, t: Seq<int>, beta: int, n: int) -> bool {
    exists|i: int| 0 <= i < n && #[trigger] collides_at::<F>(v, t, beta, i)
}

/// `n` ones.
pub open spec fn ones(n: nat) -> Seq<int> {
    Seq::new(n, |i: int| 1int)
}

/// Builds the lookup claim and witness for `values` against `table` with
/// the given multiplicities (entry `i` of the table occurs `m_i` times
/// among the values): the claimed sum is
/// `sum_i 1/(beta - v_i) - sum_i m_i/(beta - t_i)`, zero for a valid lookup,
/// over `log2 |values|` variables; the witness holds the terms of that sum
/// as numerators, with denominators one. There must be a power of two `k`
/// of values and at least `k` table entries and multiplicities; only the
/// first `k` of each are used, and `beta` must differ from every value and
/// from each of those table entries. For a valid lookup of the values into
/// the first `k` table entries (see `valid_lookup`) the claimed sum is zero.
pub fn logup_claim<F: Field>(values: &[F], table: &[F], multiplicities: &[F], beta: F) -> (r: Result<
    (SumcheckClaim<F>, LogUpWitness<F>),
    Error,
>)
    ensures
        ({
            let k = values@.len();
            let vv = crate::field::values(values@);
            let tv = crate::field::values(table@);
            let terms = logup_terms::<F>(vv, tv, crate::field::values(multiplicities@), beta@);
            &&& !is_pow2(k as int) ==> r == Err::<(SumcheckClaim<F>, LogUpWitness<F>), Error>(Error::WitnessEmpty)
            &&& is_pow2(k as int) && (multiplicities@.len() < k || table@.len() < k) ==> r == Err::<
                (SumcheckClaim<F>, LogUpWitness<F>),
                Error,
            >(Error::WitnessEmpty)
            &&& is_pow2(k as int) && multiplicities@.len() >= k && table@.len() >= k && logup_collides::<F>(
                vv,
                tv,
                beta@,
                k as int,
            ) ==> r == Err::<(SumcheckClaim<F>, LogUpWitness<F>), Error>(Error::DivisionByZero)
            &&& is_pow2(k as int) && multiplicities@.len() >= k && table@.len() >= k && !logup_collides::<F>(
                vv,
                tv,
                beta@,
                k as int,
            ) ==> r is Ok && pow2(r->Ok_0.0@.1) == k && r->Ok_0.0@.0 == sum_values::<F>(terms)
                && r->Ok_0.1@ == ((r->Ok_0.0@.1, terms), (r->Ok_0.0@.1, ones(k)))
            &&& r is Ok && valid_lookup::<F>(vv, tv.take(k as int), crate::field::values(multiplicities@).take(k as int))
                ==> r->Ok_0.0@.0 == 0
        }),
{
    proof {
        let k = values@.len();
        let vv = crate::field::values(values@);
        let tv = crate::field::values(table@);
        let mv = crate::field::values(multiplicities@);
        if tv.len() >= k && mv.len() >= k && valid_lookup::<F>(vv, tv.take(k as int), mv.take(k as int)) {
            crate::field::lemma_values_in_field::<F>(values@);
            crate::field::lemma_values_in_field::<F>(table@);
            F::lemma_value_in_field(beta);
            assert(all_in_field::<F>(tv.take(k as int))) by {
                assert forall|i: int| 0 <= i < k implies #[trigger] in_field::<F>(tv.take(k as int)[i]) by {
                    assert(in_field::<F>(tv[i]));
                }
            }
            lemma_valid_lookup_sums_to_zero::<F>(vv, tv.take(k as int), mv.take(k as int), beta@);
            assert(logup_terms::<F>(vv, tv.take(k as int), mv.take(k as int), beta@) =~= logup_terms::<F>(
                vv,
                tv,
                mv,
                beta@,
            ));
        }
    }
    let k = values.len();
    if !is_power_of_two(k) {
        return Err(Error::WitnessEmpty);
    }
    if multiplicities.len() < k || table.len() < k {
        return Err(Error::WitnessEmpty);
    }
    let ghost vv = crate::field::values(values@);
    let ghost tv = crate::field::values(table@);
    let ghost mv = crate::field::values(multiplicities@);
    let ghost terms = logup_terms::<F>(vv, tv, mv, beta@);
    let mut nums: Vec<F> = Vec::new();
    let mut dens: Vec<F> = Vec::new();
    let mut acc = F::zero();
    let mut i: usize = 0;
    while i < k
        invariant
            is_pow2(k as int),
            k == values@.len(),
            k <= table@.len(),
            k <= multiplicities@.len(),
            vv == crate::field::values(values@),
            tv == crate::field::values(table@),
            mv == crate::field::values(multiplicities@),
            terms == logup_terms::<F>(vv, tv, mv, beta@),
            i <= k,
            !logup_collides::<F>(vv, tv, beta@, i as int),
            crate::field::values(nums@) == terms.take(i as int),
            crate::field::values(dens@) == ones(i as nat),
            acc@ == sum_values::<F>(terms.take(i as int)),
        decreases k - i,
    {
        let a = beta.sub(values[i]);
        let b = beta.sub(table[i]);
        let ia = match a.inv() {
            Ok(x) => x,
            Err(_) => {
                proof {
                    assert(collides_at::<F>(vv, tv, beta@, i as int));
                    assert(logup_collides::<F>(vv, tv, beta@, k as int));
                }
                return Err(Error::DivisionByZero);
            },
        };
        let ib = match b.inv() {
            Ok(x) => x,
            Err(_) => {
                proof {
                    assert(collides_at::<F>(vv, tv, beta@, i as int));
                    assert(logup_collides::<F>(vv, tv, beta@, k as int));
                }
                return Err(Error::DivisionByZero);
            },
        };
        let term = ia.sub(multiplicities[i].mul(ib));
        let ghost old_n = nums@;
        let ghost old_d = dens@;
        nums.push(term);
        dens.push(F::one());
        acc = acc.add(term);
        proof {
            assert(term@ == terms[i as int]);
            assert(crate::field::values(nums@) =~= crate::field::values(old_n).push(term@));
            assert(terms.take(i + 1) =~= terms.take(i as int).push(terms[i as int]));
            assert(crate::field::values(dens@) =~= crate::field::values(old_d).push(1int));
            assert(ones((i + 1) as nat) =~= ones(i as nat).push(1int));
            assert(terms.take(i + 1).drop_last() =~= terms.take(i as int));
            assert forall|j: int| 0 <= j < i + 1 implies !#[trigger] collides_at::<F>(vv, tv, beta@, j) by {
                if j < i {
                    assert(!logup_collides::<F>(vv, tv, beta@, i as int));
                }
            }
        }
        i = i + 1;
    }
    proof {
        assert(crate::field::values(nums@) =~= terms);
        assert(terms.take(k as int) =~= terms);
    }
    let num_vars = log2_exact(k) as usize;
    proof {
        crate::util::lemma_pow2_fits(num_vars as nat);
    }
    let num_poly = match MultilinearPoly::from_evals(num_vars, nums) {
        Ok(p) => p,
        Err(_) => return Err(Error::WitnessEmpty),
    };
    let den_poly = match MultilinearPoly::from_evals(num_vars, dens) {
        Ok(p) => p,
        Err(_) => return Err(Error::WitnessEmpty),
    };
    Ok((SumcheckClaim::new(acc, num_vars), LogUpWitness::new(num_poly, den_poly)))
}

/// How many entries of `s` equal `x`.
pub open spec fn count_of(s: Seq<int>, x: int) -> nat
    decreases s.len(),
{
    if s.len() == 0 {
        0
    } else {
        count_of(s.drop_last(), x) + if s.last() == x {
            1nat
        } else {
            0nat
        }
    }
}

/// `x` is an entry of the table `t`.
pub open spec fn in_table(t: Seq<int>, x: int) -> bool {
    exists|j: int| 0 <= j < t.len() && #[trigger] t[j] == x
}

/// A valid lookup: the table entries are distinct, every value is a table
/// entry, and each multiplicity counts the values equal to its entry.
pub open spec fn valid_lookup<F: Field>(v: Seq<int>, t: Seq<int>, m: Seq<int>) -> bool {
    &&& m.len() == t.len()
    &&& forall|a: int, b: int| 0 <= a < b < t.len() ==> #[trigger] t[a] != #[trigger] t[b]
    &&& forall|i: int| 0 <= i < v.len() ==> #[trigger] in_table(t, v[i])
    &&& forall|j: int| 0 <= j < t.len() ==> #[trigger] m[j] == of_nat::<F>(count_of(v, t[j]))
}

/// The sum of the differences is the difference of the sums.
proof fn lemma_sum_of_differences<F: Field>(a: spec_fn(int) -> int, b: spec_fn(int) -> int, n: nat)
    requires
        forall|k: int| 0 <= k < n ==> #[trigger] in_field::<F>(a(k)),
        forall|k: int| 0 <= k < n ==> #[trigger] in_field::<F>(b(k)),
    ensures
        fsum::<F>(|k: int| F::vsub(a(k), b(k)), n) == F::vsub(fsum::<F>(a, n), fsum::<F>(b, n)),
    decreases n,
{
    F::lemma_order();
    if n == 0 {
        F::lemma_add_laws(0, 0, 0);
    } else {
        let n1 = (n - 1) as nat;
        lemma_sum_of_differences::<F>(a, b, n1);
        lemma_fsum_in_field::<F>(a, n1);
        lemma_fsum_in_field::<F>(b, n1);
        assert(in_field::<F>(a(n - 1)));
        assert(in_field::<F>(b(n - 1)));
        lemma_sub_add::<F>(fsum::<F>(a, n1), a(n - 1), fsum::<F>(b, n1), b(n - 1));
    }
}

/// Summing a function over the first `n` values is summing it over the
/// table, each entry weighted by how often it occurs among those values.
proof fn lemma_count_regroup<F: Field>(f: spec_fn(int) -> int, v: Seq<int>, t: Seq<int>, n: nat)
    requires
        n <= v.len(),
        forall|a: int, b: int| 0 <= a < b < t.len() ==> #[trigger] t[a] != #[trigger] t[b],
        forall|i: int| 0 <= i < v.len() ==> #[trigger] in_table(t, v[i]),
        forall|j: int| 0 <= j < t.len() ==> #[trigger] in_field::<F>(f(t[j])),
    ensures
        fsum::<F>(|i: int| f(v[i]), n) == fsum::<F>(
            |j: int| F::vmul(of_nat::<F>(count_of(v.take(n as int), t[j])), f(t[j])),
            t.len(),
        ),
    decreases n,
{
    F::lemma_order();
    let nt = t.len();
    if n == 0 {
        assert forall|j: int| 0 <= j < nt implies #[trigger] F::vmul(
            of_nat::<F>(count_of(v.take(0), t[j])),
            f(t[j]),
        ) == 0 by {
            assert(v.take(0).len() == 0);
            assert(in_field::<F>(f(t[j])));
            F::lemma_mul_laws(f(t[j]), 0, 0);
        }
        lemma_fsum_zero::<F>(|j: int| F::vmul(of_nat::<F>(count_of(v.take(n as int), t[j])), f(t[j])), nt);
    } else {
        let n1 = (n - 1) as nat;
        lemma_count_regroup::<F>(f, v, t, n1);
        let x = v[n - 1];
        assert(in_table(t, x));
        let j0 = choose|j: int| 0 <= j < t.len() && #[trigger] t[j] == x;
        assert(0 <= j0 < nt && t[j0] == x);
        assert(v.take(n as int).drop_last() =~= v.take(n1 as int));
        let old_g = |j: int| F::vmul(of_nat::<F>(count_of(v.take(n1 as int), t[j])), f(t[j]));
        let new_g = |j: int| F::vmul(of_nat::<F>(count_of(v.take(n as int), t[j])), f(t[j]));
        let delta = |j: int| if j == j0 {
            f(t[j0])
        } else {
            0
        };
        assert forall|j: int| 0 <= j < nt implies #[trigger] new_g(j) == F::vadd(old_g(j), delta(j)) by {
            let c = count_of(v.take(n1 as int), t[j]);
            lemma_of_nat_in_field::<F>(c);
            assert(in_field::<F>(f(t[j])));
            F::lemma_closed(of_nat::<F>(c), f(t[j]));
            if j == j0 {
                assert(count_of(v.take(n as int), t[j]) == c + 1);
                assert(of_nat::<F>(c + 1) == F::vadd(of_nat::<F>(c), 1));
                lemma_mul_distrib_right::<F>(of_nat::<F>(c), 1, f(t[j]));
                F::lemma_mul_laws(f(t[j]), 1, 0);
                F::lemma_mul_laws(1, f(t[j]), 0);
            } else {
                if t[j] == x {
                    if j < j0 {
                        assert(t[j] != t[j0]);
                    } else {
                        assert(t[j0] != t[j]);
                    }
                }
                assert(count_of(v.take(n as int), t[j]) == c);
                F::lemma_add_laws(old_g(j), 0, 0);
            }
        }
        lemma_fsum_ext::<F>(new_g, |j: int| F::vadd(old_g(j), delta(j)), nt);
        assert forall|j: int| 0 <= j < nt implies #[trigger] in_field::<F>(old_g(j)) by {
            let c = count_of(v.take(n1 as int), t[j]);
            lemma_of_nat_in_field::<F>(c);
            assert(in_field::<F>(f(t[j])));
            F::lemma_closed(of_nat::<F>(c), f(t[j]));
        }
        assert forall|j: int| 0 <= j < nt implies #[trigger] in_field::<F>(delta(j)) by {
            assert(in_field::<F>(f(t[j0])));
        }
        lemma_fsum_add::<F>(old_g, delta, nt);
        assert forall|j: int| 0 <= j < nt && j != j0 implies #[trigger] delta(j) == 0 by {}
        assert(in_field::<F>(f(t[j0])));
        lemma_fsum_single::<F>(delta, nt, j0);
    }
}

/// The LogUp identity: for a valid lookup whose challenge differs from every
/// value and table entry, the difference
/// `sum_i 1/(beta - v_i) - sum_j m_j/(beta - t_j)` that `logup_claim`
/// claims is zero.
pub proof fn lemma_valid_lookup_sums_to_zero<F: Field>(v: Seq<int>, t: Seq<int>, m: Seq<int>, beta: int)
    requires
        v.len() == t.len(),
        all_in_field::<F>(v),
        all_in_field::<F>(t),
        in_field::<F>(beta),
        valid_lookup::<F>(v, t, m),
    ensures
        sum_values::<F>(logup_terms::<F>(v, t, m, beta)) == 0,
{
    F::lemma_order();
    let n = v.len();
    let f = |x: int| inv_of::<F>(F::vsub(beta, x));
    assert forall|j: int| 0 <= j < t.len() implies #[trigger] in_field::<F>(f(t[j])) by {
        assert(in_field::<F>(t[j]));
        F::lemma_closed(beta, t[j]);
        lemma_pow_in_field::<F>(F::vsub(beta, t[j]), F::inv_exponent());
    }
    let a = |i: int| f(v[i]);
    let b = |j: int| F::vmul(m[j], f(t[j]));
    assert forall|i: int| 0 <= i < n implies #[trigger] in_field::<F>(a(i)) by {
        assert(in_field::<F>(v[i]));
        F::lemma_closed(beta, v[i]);
        lemma_pow_in_field::<F>(F::vsub(beta, v[i]), F::inv_exponent());
    }
    assert forall|j: int| 0 <= j < n implies #[trigger] in_field::<F>(b(j)) by {
        assert(m[j] == of_nat::<F>(count_of(v, t[j])));
        lemma_of_nat_in_field::<F>(count_of(v, t[j]));
        assert(in_field::<F>(f(t[j])));
        F::lemma_closed(m[j], f(t[j]));
    }
    let terms = logup_terms::<F>(v, t, m, beta);
    assert(terms =~= Seq::new(n, |i: int| F::vsub(a(i), b(i))));
    lemma_sum_values_is_fsum::<F>(|i: int| F::vsub(a(i), b(i)), n);
    lemma_sum_of_differences::<F>(a, b, n);
    lemma_count_regroup::<F>(f, v, t, n);
    assert(v.take(n as int) =~= v);
    lemma_fsum_ext::<F>(
        |j: int| F::vmul(of_nat::<F>(count_of(v.take(n as int), t[j])), f(t[j])),
        b,
        n,
    );
    lemma_fsum_ext::<F>(|i: int| f(v[i]), a, n);
    let sa = fsum::<F>(a, n);
    assert(fsum::<F>(b, n) == sa);
    lemma_fsum_in_field::<F>(a, n);
    F::lemma_add_laws(sa, sa, 0);
    assert(fsum::<F>(|i: int| F::vsub(a(i), b(i)), n) == F::vsub(sa, sa));
    assert(sum_values::<F>(terms) == sum_values::<F>(Seq::new(n, |i: int| F::vsub(a(i), b(i)))));
}

} // verus!
