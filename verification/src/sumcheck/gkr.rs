//! GKR building blocks: layered circuits and the sumcheck claim of a layer
//! against the equality polynomial.

use vstd::prelude::*;
use vstd::arithmetic::power2::{is_pow2, lemma2_to64, lemma_pow2_strictly_increases, lemma_pow2_unfold, pow2};

use super::error::Error;
use super::{LinearWitness, Sumcheck, SumcheckClaim, SumcheckOpening};
use crate::field::algebra::{lemma_mul_distrib_right, lemma_mul_neg};
use crate::field::{all_in_field, in_field, sum_values, values, Field};
use crate::poly::multilinear::{fold_table, ml_evaluate, MultilinearPoly};
use crate::prover::{prove, spec_prove_rec, MAX_ROUNDS};
use crate::transcript::{AlgebraicTranscript, Transcript};
use crate::util::{copy_vec, is_power_of_two, log2_exact};

verus! {

/// A layer's gate operation: `output = op(left, right)`.
pub trait GkrLayer<F: Field> {
    spec fn spec_evaluate(&self, left: int, right: int) -> int;

    fn evaluate(&self, left: F, right: F) -> (r: F)
        ensures
            r@ == self.spec_evaluate(left@, right@);
}

/// `left + right`.
pub struct AddLayer;

impl<F: Field> GkrLayer<F> for AddLayer {
    open spec fn spec_evaluate(&self, left: int, right: int) -> int {
        F::vadd(left, right)
    }

    fn evaluate(&self, left: F, right: F) -> (r: F) {
        left.add(right)
    }
}

/// `left * right`.
pub struct MulLayer;

impl<F: Field> GkrLayer<F> for MulLayer {
    open spec fn spec_evaluate(&self, left: int, right: int) -> int {
        F::vmul(left, right)
    }

    fn evaluate(&self, left: F, right: F) -> (r: F) {
        left.mul(right)
    }
}

/// The wiring of one layer: the input indices of each gate and the values
/// the layer takes.
#[derive(Debug)]
pub struct GkrWiring<F> {
    left_indices: Vec<usize>,
    right_indices: Vec<usize>,
    layer_values: Vec<F>,
}

impl<F: Field> View for GkrWiring<F> {
    type V = (Seq<usize>, Seq<usize>, Seq<int>);

    closed spec fn view(&self) -> (Seq<usize>, Seq<usize>, Seq<int>) {
        (self.left_indices@, self.right_indices@, values(self.layer_values@))
    }
}

impl<F: Field> GkrWiring<F> {
    pub fn new(left_indices: Vec<usize>, right_indices: Vec<usize>, layer_values: Vec<F>) -> (r: Self)
        ensures
            r@ == (left_indices@, right_indices@, values(layer_values@)),
    {
        Self { left_indices, right_indices, layer_values }
    }

    pub fn values(&self) -> (r: &[F])
        ensures
            values(r@) == self@.2,
    {
        self.layer_values.as_slice()
    }

    /// The number of gates, one per left index.
    pub fn num_gates(&self) -> (r: usize)
        ensures
            r == self@.0.len(),
    {
        self.left_indices.len()
    }
}

/// A circuit as its layers, from input to output.
#[derive(Debug)]
pub struct GkrCircuit<F> {
    layers: Vec<GkrWiring<F>>,
}

impl<F: Field> View for GkrCircuit<F> {
    type V = Seq<(Seq<usize>, Seq<usize>, Seq<int>)>;

    closed spec fn view(&self) -> Seq<(Seq<usize>, Seq<usize>, Seq<int>)> {
        self.layers@.map_values(|w: GkrWiring<F>| w@)
    }
}

impl<F: Field> GkrCircuit<F> {
    pub fn new(layers: Vec<GkrWiring<F>>) -> (r: Self)
        ensures
            r@ == layers@.map_values(|w: GkrWiring<F>| w@),
    {
        Self { layers }
    }

    pub fn num_layers(&self) -> (r: usize)
        ensures
            r == self@.len(),
    {
        self.layers.len()
    }

    /// Layer `i`, for `i` below the number of layers.
    pub fn layer(&self, i: usize) -> (r: &GkrWiring<F>)
        requires
            i < self@.len(),
        ensures
            r@ == self@[i as int],
    {
        &self.layers[i]
    }

    /// Reduces the claim about the output layer down to the input layer,
    /// one sumcheck reduction per layer: entry `j` is the pair of layer
    /// `n - 1 - j` (the output layer first), see `reduced_layer`.
    pub fn reduce_to_input(&self, output_claim: SumcheckClaim<F>) -> (r: Vec<(SumcheckClaim<F>, SumcheckOpening<F>)>)
        ensures
            r@.len() == self@.len(),
            forall|j: int|
                0 <= j < self@.len() ==> (#[trigger] r@[j]).0@ == reduced_layer::<F>(self@, output_claim@, j).0
                    && r@[j].1@ == reduced_layer::<F>(self@, output_claim@, j).1,
    {
        let n = self.layers.len();
        let mut out: Vec<(SumcheckClaim<F>, SumcheckOpening<F>)> = Vec::new();
        let mut j: usize = 0;
        while j < n
            invariant
                n == self@.len(),
                n == self.layers@.len(),
                j <= n,
                out@.len() == j,
                forall|i: int|
                    0 <= i < j ==> (#[trigger] out@[i]).0@ == reduced_layer::<F>(self@, output_claim@, i).0
                        && out@[i].1@ == reduced_layer::<F>(self@, output_claim@, i).1,
            decreases n - j,
        {
            let layer = &self.layers[n - 1 - j];
            assert(layer@ == self@[n - 1 - j]);
            let evals = copy_vec(&layer.layer_values);
            let len = evals.len();
            let pair = if is_power_of_two(len) {
                let k = log2_exact(len);
                proof {
                    lemma_table_vars(len as nat, k as nat);
                    crate::util::lemma_pow2_fits(k as nat);
                }
                let poly = match MultilinearPoly::from_evals(k as usize, evals) {
                    Ok(p) => p,
                    Err(_) => {
                        assert(false);
                        return out;
                    },
                };
                let claim = if j == 0 {
                    output_claim
                } else {
                    SumcheckClaim::new(poly.sum_over_hypercube(), k as usize)
                };
                let witness = LinearWitness::new(poly);
                let opening = match prove::<Sumcheck<LinearWitness<F>>, AlgebraicTranscript<F>>(
                    claim,
                    witness,
                    AlgebraicTranscript::new(),
                ) {
                    Ok((p, _)) => *p.opening(),
                    Err(_) => SumcheckOpening::new(F::zero()),
                };
                (claim, opening)
            } else {
                let claim = if j == 0 {
                    output_claim
                } else {
                    let mut acc = F::zero();
                    let mut i: usize = 0;
                    while i < len
                        invariant
                            len == evals@.len(),
                            i <= len,
                            acc@ == sum_values::<F>(values(evals@).subrange(0, i as int)),
                        decreases len - i,
                    {
                        proof {
                            let s = values(evals@).subrange(0, i + 1);
                            assert(s.drop_last() =~= values(evals@).subrange(0, i as int));
                        }
                        acc = acc.add(evals[i]);
                        i = i + 1;
                    }
                    proof {
                        assert(values(evals@).subrange(0, len as int) =~= values(evals@));
                    }
                    SumcheckClaim::new(acc, 0)
                };
                (claim, SumcheckOpening::new(F::zero()))
            };
            out.push(pair);
            j = j + 1;
        }
        out
    }
}

/// The number of variables of a table of `n` values, `n` a power of two.
pub open spec fn table_vars(n: nat) -> nat {
    choose|k: nat| pow2(k) == n
}

proof fn lemma_table_vars(n: nat, k: nat)
    requires
        pow2(k) == n,
    ensures
        table_vars(n) == k,
{
    let c = table_vars(n);
    assert(pow2(c) == n);
    if c < k {
        lemma_pow2_strictly_increases(c, k);
    } else if k < c {
        lemma_pow2_strictly_increases(k, c);
    }
}

/// The value the honest sumcheck prover opens for `claim` over a layer's
/// values, with the transcript started afresh: the multilinear extension of
/// the values at the drawn challenges. Zero where the values are not `2^k`
/// many or the prover fails.
pub open spec fn layer_opening<F: Field>(claim: (int, nat), vals: Seq<int>) -> int {
    if is_pow2(vals.len() as int) {
        match spec_prove_rec::<Sumcheck<LinearWitness<F>>, AlgebraicTranscript<F>>(
            claim,
            (table_vars(vals.len()), vals),
            AlgebraicTranscript::<F>::spec_new(),
            Seq::empty(),
            MAX_ROUNDS as nat,
        ) {
            Ok(p) => p.1,
            Err(_) => 0,
        }
    } else {
        0
    }
}

/// The pair for entry `j` of the reduction, layer `n - 1 - j`: the output
/// claim for the output layer, and for a layer below it the claim that its
/// values sum to their sum over the hypercube (in `0` variables where they
/// are not `2^k` many); then what the sumcheck prover opens for that claim.
pub open spec fn reduced_layer<F: Field>(
    circuit: Seq<(Seq<usize>, Seq<usize>, Seq<int>)>,
    output_claim: (int, nat),
    j: int,
) -> ((int, nat), int) {
    let vals = circuit[circuit.len() - 1 - j].2;
    let claim = if j == 0 {
        output_claim
    } else if is_pow2(vals.len() as int) {
        (sum_values::<F>(vals), table_vars(vals.len()))
    } else {
        (sum_values::<F>(vals), 0nat)
    };
    (claim, layer_opening::<F>(claim, vals))
}

/// The table of `eq(r, x)` over `x` in `{0,1}^k` for the first `k`
/// coordinates of `r`, entry `j` for the point whose coordinate `i` is bit
/// `i` of `j` (the order of `MultilinearPoly`): coordinate `k - 1` doubles
/// the table, the lower half taking the factor `1 - r_(k-1)` and the upper
/// half the factor `r_(k-1)`.
pub open spec fn eq_table<F: Field>(r: Seq<int>, k: nat) -> Seq<int>
    decreases k,
{
    if k == 0 {
        seq![1]
    } else {
        let t = eq_table::<F>(r, (k - 1) as nat);
        let ri = r[k - 1];
        Seq::new(
            2 * t.len(),
            |j: int|
                if j < t.len() {
                    F::vmul(t[j], F::vsub(1, ri))
                } else {
                    F::vmul(t[j - t.len()], ri)
                },
        )
    }
}

/// `sum_{i < k} a[i] * b[i]`, added from zero.
pub open spec fn dot_prefix<F: Field>(a: Seq<int>, b: Seq<int>, k: nat) -> int
    decreases k,
{
    if k == 0 {
        0
    } else {
        F::vadd(dot_prefix::<F>(a, b, (k - 1) as nat), F::vmul(a[k - 1], b[k - 1]))
    }
}

/// The first `n` entries of the equality table at `r` (all of it if shorter).
fn eq_multilinear<F: Field>(r: &[F], n: usize) -> (out: Vec<F>)
    ensures
        values(out@) == eq_table::<F>(values(r@), r@.len()).take(
            if n <= eq_table::<F>(values(r@), r@.len()).len() {
                n as int
            } else {
                eq_table::<F>(values(r@), r@.len()).len() as int
            },
        ),
{
    let ghost rv = values(r@);
    let mut table: Vec<F> = vec![F::one()];
    proof {
        assert(values(table@) =~= seq![1int]);
    }
    let mut k: usize = 0;
    while k < r.len()
        invariant
            rv == values(r@),
            k <= r@.len(),
            values(table@) == eq_table::<F>(rv, k as nat),
        decreases r@.len() - k,
    {
        let ri = r[k];
        let one_minus_ri = F::one().sub(ri);
        let ghost t = values(table@);
        let ghost target = eq_table::<F>(rv, (k + 1) as nat);
        let len = table.len();
        let mut next: Vec<F> = Vec::new();
        let mut j: usize = 0;
        while j < len
            invariant
                t == values(table@),
                len == table@.len(),
                target == eq_table::<F>(rv, (k + 1) as nat),
                t == eq_table::<F>(rv, k as nat),
                ri@ == rv[k as int],
                one_minus_ri@ == F::vsub(1, ri@),
                k < r@.len(),
                j <= len,
                values(next@) == target.subrange(0, j as int),
            decreases len - j,
        {
            let a = table[j].mul(one_minus_ri);
            let ghost old_next = next@;
            next.push(a);
            proof {
                assert(values(next@) =~= values(old_next).push(a@));
                assert(target.subrange(0, j + 1) =~= target.subrange(0, j as int).push(target[j as int]));
            }
            j = j + 1;
        }
        let mut j: usize = 0;
        while j < len
            invariant
                t == values(table@),
                len == table@.len(),
                target == eq_table::<F>(rv, (k + 1) as nat),
                t == eq_table::<F>(rv, k as nat),
                ri@ == rv[k as int],
                k < r@.len(),
                j <= len,
                values(next@) == target.subrange(0, len + j),
            decreases len - j,
        {
            let b = table[j].mul(ri);
            let ghost old_next = next@;
            next.push(b);
            proof {
                assert(target[len + j] == b@);
                assert(values(next@) =~= values(old_next).push(b@));
                assert(target.subrange(0, len + j + 1) =~= target.subrange(0, len + j).push(target[len + j]));
            }
            j = j + 1;
        }
        proof {
            assert(values(next@) =~= target);
        }
        table = next;
        k = k + 1;
    }
    let ghost full = values(table@);
    let m = if n <= table.len() {
        n
    } else {
        table.len()
    };
    let mut out: Vec<F> = Vec::new();
    let mut i: usize = 0;
    while i < m
        invariant
            full == values(table@),
            m <= table@.len(),
            i <= m,
            values(out@) == full.take(i as int),
        decreases m - i,
    {
        let ghost old_out = out@;
        out.push(table[i]);
        proof {
            assert(values(out@) =~= values(old_out).push(full[i as int]));
            assert(full.take(i + 1) =~= full.take(i as int).push(full[i as int]));
        }
        i = i + 1;
    }
    out
}

/// The claim `sum_b eq(r, b) * V(b) == s` for a layer's values `V` (the
/// sum taken over the common prefix of the equality table and the values),
/// in `log2 |V|` variables; the number of values must be a power of two.
/// With one coordinate of `r` per variable, `s` is the value at `r` of the
/// layer's multilinear extension.
pub fn layer_sumcheck_claim<F: Field>(evaluation_point: &[F], layer_values: &[F]) -> (r: Result<
    SumcheckClaim<F>,
    Error,
>)
    ensures
        !is_pow2(layer_values@.len() as int) ==> r == Err::<SumcheckClaim<F>, Error>(Error::WitnessEmpty),
        is_pow2(layer_values@.len() as int) ==> r is Ok && pow2(r->Ok_0@.1) == layer_values@.len()
            && r->Ok_0@.0 == ({
            let eq = eq_table::<F>(values(evaluation_point@), evaluation_point@.len());
            let m = if layer_values@.len() <= eq.len() {
                layer_values@.len()
            } else {
                eq.len()
            };
            dot_prefix::<F>(eq, values(layer_values@), m as nat)
        }),
        pow2(evaluation_point@.len() as nat) == layer_values@.len() ==> r is Ok && r->Ok_0@.0 == ml_evaluate::<F>(
            values(layer_values@),
            values(evaluation_point@),
        ),
{
    proof {
        if pow2(evaluation_point@.len() as nat) == layer_values@.len() {
            vstd::arithmetic::power2::lemma_pow2(evaluation_point@.len() as nat);
            vstd::arithmetic::power2::is_pow2_equiv(layer_values@.len() as int);
            crate::field::lemma_values_in_field::<F>(evaluation_point@);
            crate::field::lemma_values_in_field::<F>(layer_values@);
            lemma_eq_table_shape::<F>(values(evaluation_point@), evaluation_point@.len() as nat);
            lemma_eq_sum_is_evaluation::<F>(values(evaluation_point@), values(layer_values@));
        }
    }
    if !is_power_of_two(layer_values.len()) {
        return Err(Error::WitnessEmpty);
    }
    let eq_evals = eq_multilinear(evaluation_point, layer_values.len());
    let ghost eq = eq_table::<F>(values(evaluation_point@), evaluation_point@.len());
    let ghost lv = values(layer_values@);
    let m = if eq_evals.len() <= layer_values.len() {
        eq_evals.len()
    } else {
        layer_values.len()
    };
    let mut acc = F::zero();
    let mut i: usize = 0;
    while i < m
        invariant
            m <= eq_evals@.len(),
            m <= layer_values@.len(),
            lv == values(layer_values@),
            values(eq_evals@) == eq.take(values(eq_evals@).len() as int),
            values(eq_evals@).len() <= eq.len(),
            i <= m,
            acc@ == dot_prefix::<F>(eq, lv, i as nat),
        decreases m - i,
    {
        assert(values(eq_evals@)[i as int] == eq[i as int]);
        acc = acc.add(eq_evals[i].mul(layer_values[i]));
        i = i + 1;
    }
    let log_n = log2_exact(layer_values.len());
    Ok(SumcheckClaim::new(acc, log_n as usize))
}

/// The equality table at `r` has `2^k` entries, each a field value.
proof fn lemma_eq_table_shape<F: Field>(r: Seq<int>, k: nat)
    requires
        k <= r.len(),
        all_in_field::<F>(r),
    ensures
        eq_table::<F>(r, k).len() == pow2(k),
        all_in_field::<F>(eq_table::<F>(r, k)),
    decreases k,
{
    F::lemma_order();
    if k == 0 {
        lemma2_to64();
    } else {
        let k1 = (k - 1) as nat;
        lemma_eq_table_shape::<F>(r, k1);
        lemma_pow2_unfold(k);
        let t = eq_table::<F>(r, k1);
        let ri = r[k - 1];
        assert(in_field::<F>(ri));
        F::lemma_closed(1, ri);
        let e = eq_table::<F>(r, k);
        assert forall|j: int| 0 <= j < e.len() implies #[trigger] in_field::<F>(e[j]) by {
            if j < t.len() {
                assert(in_field::<F>(t[j]));
                F::lemma_closed(t[j], F::vsub(1, ri));
            } else {
                assert(in_field::<F>(t[j - t.len()]));
                F::lemma_closed(t[j - t.len()], ri);
            }
        }
    }
}

proof fn lemma_mul_swap_last<F: Field>(x: int, y: int, z: int)
    requires
        in_field::<F>(x),
        in_field::<F>(y),
        in_field::<F>(z),
    ensures
        F::vmul(F::vmul(x, y), z) == F::vmul(F::vmul(x, z), y),
{
    F::lemma_order();
    F::lemma_closed(y, z);
    F::lemma_mul_laws(x, y, z);
    F::lemma_mul_laws(y, z, 0);
    F::lemma_mul_laws(x, z, y);
}

/// The factor of the first coordinate: entry `2j + b` of the table at `r`
/// is entry `j` of the table at the rest of `r`, times `1 - r_0` for
/// `b == 0` and `r_0` for `b == 1`.
proof fn lemma_eq_table_low_bit<F: Field>(r: Seq<int>, k: nat, j: int, b: int)
    requires
        1 <= k <= r.len(),
        all_in_field::<F>(r),
        0 <= j < pow2((k - 1) as nat),
        b == 0 || b == 1,
    ensures
        eq_table::<F>(r, k)[2 * j + b] == F::vmul(
            eq_table::<F>(r.drop_first(), (k - 1) as nat)[j],
            if b == 0 {
                F::vsub(1, r[0])
            } else {
                r[0]
            },
        ),
    decreases k,
{
    F::lemma_order();
    let rest = r.drop_first();
    let f = if b == 0 {
        F::vsub(1, r[0])
    } else {
        r[0]
    };
    assert(in_field::<F>(r[0]));
    F::lemma_closed(1, r[0]);
    assert(all_in_field::<F>(rest)) by {
        assert forall|i: int| 0 <= i < rest.len() implies #[trigger] in_field::<F>(rest[i]) by {
            assert(in_field::<F>(r[i + 1]));
        }
    }
    if k == 1 {
        lemma2_to64();
        assert(j == 0);
        F::lemma_mul_laws(1, f, 0);
        F::lemma_mul_laws(f, 1, 0);
    } else {
        let k1 = (k - 1) as nat;
        let k2 = (k - 2) as nat;
        lemma_eq_table_shape::<F>(r, k1);
        lemma_eq_table_shape::<F>(rest, k2);
        lemma_pow2_unfold(k1);
        let n = pow2(k1) as int;
        let h = pow2(k2) as int;
        let top = r[k - 1];
        assert(rest[k2 as int] == top);
        assert(in_field::<F>(top));
        F::lemma_closed(1, top);
        let i = 2 * j + b;
        if i < n {
            assert(j < h);
            lemma_eq_table_low_bit::<F>(r, k1, j, b);
            let d = eq_table::<F>(rest, k2)[j];
            assert(in_field::<F>(d));
            lemma_mul_swap_last::<F>(d, f, F::vsub(1, top));
        } else {
            let j2 = j - h;
            assert(0 <= j2 < h);
            assert(i - n == 2 * j2 + b);
            lemma_eq_table_low_bit::<F>(r, k1, j2, b);
            let d = eq_table::<F>(rest, k2)[j2];
            assert(in_field::<F>(d));
            lemma_mul_swap_last::<F>(d, f, top);
        }
    }
}

/// `(1 - r) a + r b == a + (b - a) r`.
proof fn lemma_lerp<F: Field>(a: int, b: int, r: int)
    requires
        in_field::<F>(a),
        in_field::<F>(b),
        in_field::<F>(r),
    ensures
        F::vadd(F::vmul(F::vsub(1, r), a), F::vmul(r, b)) == F::vadd(a, F::vmul(F::vsub(b, a), r)),
{
    F::lemma_order();
    let nr = F::vneg(r);
    let na = F::vneg(a);
    F::lemma_closed(r, 0);
    F::lemma_closed(a, 0);
    F::lemma_closed(r, a);
    F::lemma_closed(r, b);
    F::lemma_closed(b, r);
    F::lemma_closed(na, r);
    F::lemma_closed(a, r);
    F::lemma_add_laws(1, r, 0);
    F::lemma_add_laws(b, a, 0);
    // (1 - r) a == a + (-(r a))
    lemma_mul_distrib_right::<F>(1, nr, a);
    F::lemma_mul_laws(a, 1, 0);
    F::lemma_mul_laws(1, a, 0);
    F::lemma_mul_laws(nr, a, 0);
    lemma_mul_neg::<F>(a, r);
    F::lemma_mul_laws(a, r, 0);
    // (b - a) r == r b + (-(r a))
    lemma_mul_distrib_right::<F>(b, na, r);
    F::lemma_mul_laws(na, r, 0);
    lemma_mul_neg::<F>(r, a);
    F::lemma_mul_laws(r, na, 0);
    F::lemma_mul_laws(b, r, 0);
    let ra = F::vmul(r, a);
    let rb = F::vmul(r, b);
    F::lemma_closed(ra, 0);
    let nra = F::vneg(ra);
    F::lemma_add_laws(a, nra, rb);
    F::lemma_add_laws(nra, rb, 0);
    F::lemma_add_laws(rb, nra, 0);
}

/// `sum_{j < n}` of the pair sums `a[2j] b[2j] + a[2j+1] b[2j+1]`.
spec fn pair_dot<F: Field>(a: Seq<int>, b: Seq<int>, n: nat) -> int
    decreases n,
{
    if n == 0 {
        0
    } else {
        F::vadd(
            pair_dot::<F>(a, b, (n - 1) as nat),
            F::vadd(F::vmul(a[2 * n - 2], b[2 * n - 2]), F::vmul(a[2 * n - 1], b[2 * n - 1])),
        )
    }
}

proof fn lemma_dot_in_field<F: Field>(a: Seq<int>, b: Seq<int>, k: nat)
    requires
        k <= a.len(),
        k <= b.len(),
        all_in_field::<F>(a),
        all_in_field::<F>(b),
    ensures
        in_field::<F>(dot_prefix::<F>(a, b, k)),
    decreases k,
{
    F::lemma_order();
    if k > 0 {
        lemma_dot_in_field::<F>(a, b, (k - 1) as nat);
        assert(in_field::<F>(a[k - 1]));
        assert(in_field::<F>(b[k - 1]));
        F::lemma_closed(a[k - 1], b[k - 1]);
        F::lemma_closed(dot_prefix::<F>(a, b, (k - 1) as nat), F::vmul(a[k - 1], b[k - 1]));
    }
}

proof fn lemma_dot_pairs<F: Field>(a: Seq<int>, b: Seq<int>, n: nat)
    requires
        2 * n <= a.len(),
        2 * n <= b.len(),
        all_in_field::<F>(a),
        all_in_field::<F>(b),
    ensures
        dot_prefix::<F>(a, b, 2 * n) == pair_dot::<F>(a, b, n),
    decreases n,
{
    F::lemma_order();
    if n > 0 {
        let n1 = (n - 1) as nat;
        lemma_dot_pairs::<F>(a, b, n1);
        lemma_dot_in_field::<F>(a, b, 2 * n1);
        let x = F::vmul(a[2 * n - 2], b[2 * n - 2]);
        let y = F::vmul(a[2 * n - 1], b[2 * n - 1]);
        assert(in_field::<F>(a[2 * n - 2]) && in_field::<F>(b[2 * n - 2]));
        assert(in_field::<F>(a[2 * n - 1]) && in_field::<F>(b[2 * n - 1]));
        F::lemma_closed(a[2 * n - 2], b[2 * n - 2]);
        F::lemma_closed(a[2 * n - 1], b[2 * n - 1]);
        F::lemma_add_laws(dot_prefix::<F>(a, b, 2 * n1), x, y);
        assert((2 * n - 1) as nat == 2 * n1 + 1);
        assert(dot_prefix::<F>(a, b, 2 * n1 + 1) == F::vadd(dot_prefix::<F>(a, b, 2 * n1), x));
    }
}

/// The equality-weighted sum of a table of `2^k` values at a point of `k`
/// coordinates is the value there of the table's multilinear extension:
/// `sum_b eq(r, b) * t[b] == P_t(r)`, in the index order of
/// `MultilinearPoly`.
pub proof fn lemma_eq_sum_is_evaluation<F: Field>(r: Seq<int>, t: Seq<int>)
    requires
        t.len() == pow2(r.len()),
        all_in_field::<F>(r),
        all_in_field::<F>(t),
    ensures
        dot_prefix::<F>(eq_table::<F>(r, r.len()), t, t.len()) == ml_evaluate::<F>(t, r),
    decreases r.len(),
{
    F::lemma_order();
    let k = r.len();
    lemma_eq_table_shape::<F>(r, k);
    if k == 0 {
        lemma2_to64();
        assert(in_field::<F>(t[0]));
        F::lemma_mul_laws(t[0], 1, 0);
        F::lemma_mul_laws(1, t[0], 0);
        F::lemma_add_laws(0, t[0], 0);
        F::lemma_add_laws(t[0], 0, 0);
        assert(eq_table::<F>(r, 0) == seq![1int]);
        assert(t.len() == 1);
        let one = seq![1int];
        assert(one[0] == 1);
        assert(dot_prefix::<F>(one, t, 0) == 0);
        assert(dot_prefix::<F>(one, t, 1) == F::vadd(dot_prefix::<F>(one, t, 0), F::vmul(one[0], t[0])));
    } else {
        let r0 = r[0];
        let rest = r.drop_first();
        let k1 = (k - 1) as nat;
        let n = pow2(k1);
        lemma_pow2_unfold(k);
        let e = eq_table::<F>(r, k);
        let d = eq_table::<F>(rest, k1);
        let folded = fold_table::<F>(t, r0);
        assert(in_field::<F>(r0));
        assert(all_in_field::<F>(rest)) by {
            assert forall|i: int| 0 <= i < rest.len() implies #[trigger] in_field::<F>(rest[i]) by {
                assert(in_field::<F>(r[i + 1]));
            }
        }
        crate::sumcheck::laws::lemma_fold_in_field::<F>(t, r0);
        lemma_eq_table_shape::<F>(rest, k1);
        lemma_eq_sum_is_evaluation::<F>(rest, folded);
        lemma_dot_pairs::<F>(e, t, n);
        // pair by pair, the weighted pair is the weighted fold
        assert forall|m: nat| m <= n implies #[trigger] pair_dot::<F>(e, t, m) == dot_prefix::<F>(d, folded, m) by {
            lemma_pairs_fold::<F>(r, t, m);
        }
        assert(pair_dot::<F>(e, t, n) == dot_prefix::<F>(d, folded, n));
        assert(t.len() == 2 * n);
        assert(folded.len() == n);
        assert(ml_evaluate::<F>(t, r) == ml_evaluate::<F>(folded, rest));
    }
}

proof fn lemma_pairs_fold<F: Field>(r: Seq<int>, t: Seq<int>, m: nat)
    requires
        r.len() >= 1,
        t.len() == pow2(r.len()),
        all_in_field::<F>(r),
        all_in_field::<F>(t),
        m <= pow2((r.len() - 1) as nat),
    ensures
        pair_dot::<F>(eq_table::<F>(r, r.len()), t, m) == dot_prefix::<F>(
            eq_table::<F>(r.drop_first(), (r.len() - 1) as nat),
            fold_table::<F>(t, r[0]),
            m,
        ),
    decreases m,
{
    F::lemma_order();
    if m > 0 {
        let k = r.len();
        let k1 = (k - 1) as nat;
        let m1 = (m - 1) as nat;
        lemma_pairs_fold::<F>(r, t, m1);
        let j = m1 as int;
        let rest = r.drop_first();
        assert(all_in_field::<F>(rest)) by {
            assert forall|i: int| 0 <= i < rest.len() implies #[trigger] in_field::<F>(rest[i]) by {
                assert(in_field::<F>(r[i + 1]));
            }
        }
        lemma_eq_table_shape::<F>(rest, k1);
        lemma_pow2_unfold(k);
        lemma_eq_table_low_bit::<F>(r, k, j, 0);
        lemma_eq_table_low_bit::<F>(r, k, j, 1);
        let dj = eq_table::<F>(rest, k1)[j];
        let r0 = r[0];
        let a = t[2 * j];
        let b = t[2 * j + 1];
        assert(in_field::<F>(dj));
        assert(in_field::<F>(r0));
        assert(in_field::<F>(a));
        assert(in_field::<F>(b));
        F::lemma_closed(1, r0);
        let s = F::vsub(1, r0);
        // (d s) a + (d r0) b == d (s a + r0 b) == d (a + (b - a) r0)
        F::lemma_mul_laws(dj, s, a);
        F::lemma_mul_laws(dj, r0, b);
        F::lemma_closed(s, a);
        F::lemma_closed(r0, b);
        F::lemma_mul_laws(dj, F::vmul(s, a), F::vmul(r0, b));
        lemma_lerp::<F>(a, b, r0);
        assert(2 * (m as int) - 2 == 2 * j);
    }
}

} // verus!
