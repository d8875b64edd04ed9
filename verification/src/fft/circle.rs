//! The circle group `x^2 + y^2 = 1` over Mersenne31, of order `2^31`, and
//! evaluation of polynomials over its subgroups.

use vstd::prelude::*;

use super::error::Error;
use vstd::arithmetic::div_mod::{
    lemma_add_mod_noop, lemma_mod_add_multiples_vanish, lemma_mod_bound, lemma_mul_mod_noop, lemma_mul_mod_noop_left,
    lemma_small_mod, lemma_sub_mod_noop,
};
use vstd::arithmetic::mul::{
    lemma_mul_is_associative, lemma_mul_is_distributive_add, lemma_mul_is_distributive_add_other_way,
    lemma_mul_is_distributive_sub, lemma_mul_is_distributive_sub_other_way,
};

use vstd::arithmetic::power2::{lemma2_to64, lemma_pow2_adds, lemma_pow2_unfold, pow2};
use vstd::bits::lemma_u64_shl_is_mul;

use crate::field::mersenne31::P;
use crate::field::modp::{lemma_shr_step, lemma_shr_zero, shr_or_zero};
use crate::field::{values, Field, Mersenne31};

verus! {

type M = Mersenne31;

/// `(x1 x2 - y1 y2, x1 y2 + y1 x2)`: complex multiplication.
pub open spec fn circle_mul(a: (int, int), b: (int, int)) -> (int, int) {
    (
        <M as Field>::vsub(<M as Field>::vmul(a.0, b.0), <M as Field>::vmul(a.1, b.1)),
        <M as Field>::vadd(<M as Field>::vmul(a.0, b.1), <M as Field>::vmul(a.1, b.0)),
    )
}

/// `p^e` by square-and-multiply over the `j` highest of the 64 bits of `e`.
pub open spec fn circle_pow_steps(p: (int, int), e: u64, j: nat) -> (int, int)
    decreases j,
{
    if j == 0 {
        (1, 0)
    } else {
        let acc = circle_pow_steps(p, e, (j - 1) as nat);
        let sq = circle_mul(acc, acc);
        if (e >> ((64 - j) as u64)) & 1u64 == 1u64 {
            circle_mul(sq, p)
        } else {
            sq
        }
    }
}

/// `p^e`.
pub open spec fn circle_pow(p: (int, int), e: u64) -> (int, int) {
    circle_pow_steps(p, e, 64)
}

/// The generator `(2, 1268011823)` of the whole group.
pub open spec fn circle_generator() -> (int, int) {
    (2, 1268011823)
}

/// A point `(x, y)`; on the circle when `x^2 + y^2 == 1`.
#[derive(Debug, Clone, Copy, PartialEq, Eq)]
pub struct CirclePoint {
    x: Mersenne31,
    y: Mersenne31,
}

impl View for CirclePoint {
    type V = (int, int);

    closed spec fn view(&self) -> (int, int) {
        (self.x@, self.y@)
    }
}

impl CirclePoint {
    pub fn new(x: Mersenne31, y: Mersenne31) -> (r: Self)
        ensures
            r@ == (x@, y@),
    {
        Self { x, y }
    }

    /// `(1, 0)`.
    pub fn identity() -> (r: Self)
        ensures
            r@ == (1int, 0int),
    {
        Self { x: M::one(), y: M::zero() }
    }

    pub fn x(&self) -> (r: Mersenne31)
        ensures
            r@ == self@.0,
    {
        self.x
    }

    pub fn y(&self) -> (r: Mersenne31)
        ensures
            r@ == self@.1,
    {
        self.y
    }

    /// Whether `x^2 + y^2 == 1`.
    pub fn is_on_circle(&self) -> (r: bool)
        ensures
            r == (<M as Field>::vadd(<M as Field>::vmul(self@.0, self@.0), <M as Field>::vmul(self@.1, self@.1)) == 1),
    {
        self.x.square().add(self.y.square()).equals(M::one())
    }

    /// The group operation.
    pub fn mul(self, rhs: Self) -> (r: Self)
        ensures
            r@ == circle_mul(self@, rhs@),
    {
        Self { x: self.x.mul(rhs.x).sub(self.y.mul(rhs.y)), y: self.x.mul(rhs.y).add(self.y.mul(rhs.x)) }
    }

    /// `self^exp`, by square-and-multiply from the highest bit.
    pub fn pow(self, exp: u64) -> (r: Self)
        ensures
            r@ == circle_pow(self@, exp),
            r@ == domain_point(self@, exp as nat),
    {
        proof {
            lemma_circle_pow_repeated(self@, exp);
        }
        let mut acc = Self::identity();
        let mut j: u64 = 0;
        while j < 64
            invariant
                j <= 64,
                acc@ == circle_pow_steps(self@, exp, j as nat),
            decreases 64 - j,
        {
            let i = 63 - j;
            let squared = acc.mul(acc);
            if (exp >> i) & 1 == 1 {
                acc = squared.mul(self);
            } else {
                acc = squared;
            }
            j = j + 1;
        }
        acc
    }

    /// The generator of the group of order `2^31`.
    pub fn generator() -> (r: Self)
        ensures
            r@ == circle_generator(),
    {
        proof {
            M::lemma_from_int(0, 2);
            M::lemma_from_int(0, 1268011823);
        }
        Self::new(M::from(2u32), M::from(1268011823u32))
    }

    /// The generator of the subgroup of order `2^log_n`, `g^(2^(31 - log_n))`;
    /// only for `log_n <= 31`.
    pub fn subgroup_generator(log_n: u32) -> (r: Result<Self, Error>)
        ensures
            log_n > 31 ==> r == Err::<Self, Error>(Error::LengthNotPowerOfTwo { len: 0x8000_0000 }),
            log_n <= 31 ==> r is Ok && r->Ok_0@ == circle_pow(
                circle_generator(),
                (1u64 << ((31 - log_n) as u64)) as u64,
            ),
    {
        if log_n > 31 {
            Err(Error::LengthNotPowerOfTwo { len: 0x8000_0000 })
        } else {
            let shift: u64 = (31 - log_n) as u64;
            Ok(Self::generator().pow(1u64 << shift))
        }
    }
}

/// `g^k`, by repeated multiplication from the identity.
pub open spec fn domain_point(g: (int, int), k: nat) -> (int, int)
    decreases k,
{
    if k == 0 {
        (1, 0)
    } else {
        circle_mul(domain_point(g, (k - 1) as nat), g)
    }
}

/// `sum_{i < m} c_i * x(pt^i)`, added from zero.
pub open spec fn circle_sum(c: Seq<int>, pt: (int, int), m: nat) -> int
    decreases m,
{
    if m == 0 {
        0
    } else {
        <M as Field>::vadd(
            circle_sum(c, pt, (m - 1) as nat),
            <M as Field>::vmul(c[m - 1], circle_pow(pt, (m - 1) as u64).0),
        )
    }
}

fn evaluate_at(coeffs: &[Mersenne31], pt: CirclePoint) -> (r: Mersenne31)
    ensures
        r@ == circle_sum(values(coeffs@), pt@, coeffs@.len()),
{
    let mut acc = M::zero();
    let mut i: usize = 0;
    while i < coeffs.len()
        invariant
            i <= coeffs@.len(),
            acc@ == circle_sum(values(coeffs@), pt@, i as nat),
        decreases coeffs@.len() - i,
    {
        let p = pt.pow(i as u64);
        acc = acc.add(coeffs[i].mul(p.x()));
        i = i + 1;
    }
    acc
}

/// The values `P(g^k)` for `k < 2^log_n`, where `P(pt) = sum_i c_i x(pt^i)`
/// and `g` generates the subgroup of order `2^log_n`.
pub fn circle_evaluate(coeffs: &[Mersenne31], log_n: u32) -> (r: Result<Vec<Mersenne31>, Error>)
    ensures
        coeffs@.len() == 0 ==> r == Err::<Vec<Mersenne31>, Error>(Error::EmptyInput),
        coeffs@.len() != 0 && log_n > 31 ==> r == Err::<Vec<Mersenne31>, Error>(
            Error::LengthNotPowerOfTwo { len: 0x8000_0000 },
        ),
        coeffs@.len() != 0 && log_n <= 31 ==> r is Ok && values(r->Ok_0@) == Seq::new(
            vstd::arithmetic::power2::pow2(log_n as nat),
            |k: int|
                circle_sum(
                    values(coeffs@),
                    domain_point(circle_pow(circle_generator(), (1u64 << ((31 - log_n) as u64)) as u64), k as nat),
                    coeffs@.len(),
                ),
        ),
{
    if coeffs.len() == 0 {
        return Err(Error::EmptyInput);
    }
    let g = match CirclePoint::subgroup_generator(log_n) {
        Ok(g) => g,
        Err(e) => return Err(e),
    };
    proof {
        vstd::arithmetic::power2::lemma2_to64();
        vstd::bits::lemma_u64_shl_is_mul(1, log_n as u64);
    }
    let n64: u64 = 1u64 << (log_n as u64);
    assert(n64 <= 0x8000_0000);
    let n = n64 as usize;
    let ghost target = Seq::new(
        vstd::arithmetic::power2::pow2(log_n as nat),
        |k: int| circle_sum(values(coeffs@), domain_point(g@, k as nat), coeffs@.len()),
    );
    let mut out: Vec<Mersenne31> = Vec::new();
    let mut pt = CirclePoint::identity();
    let mut k: usize = 0;
    while k < n
        invariant
            n == vstd::arithmetic::power2::pow2(log_n as nat),
            target == Seq::new(
                vstd::arithmetic::power2::pow2(log_n as nat),
                |k2: int| circle_sum(values(coeffs@), domain_point(g@, k2 as nat), coeffs@.len()),
            ),
            k <= n,
            pt@ == domain_point(g@, k as nat),
            values(out@) == target.subrange(0, k as int),
        decreases n - k,
    {
        let v = evaluate_at(coeffs, pt);
        let ghost old = out@;
        out.push(v);
        proof {
            assert(values(out@) =~= values(old).push(v@));
            assert(target.subrange(0, k + 1) =~= target.subrange(0, k as int).push(target[k as int]));
        }
        pt = pt.mul(g);
        k = k + 1;
    }
    proof {
        assert(values(out@) =~= target);
    }
    Ok(out)
}

} // verus!

verus! {

/// `x^2 + y^2 == 1`.
pub open spec fn on_circle(p: (int, int)) -> bool {
    <M as Field>::vadd(<M as Field>::vmul(p.0, p.0), <M as Field>::vmul(p.1, p.1)) == 1
}

/// Both coordinates are canonical values of the field.
pub open spec fn circle_coords(p: (int, int)) -> bool {
    0 <= p.0 < P && 0 <= p.1 < P
}

/// The product as two integer expressions reduced once.
proof fn lemma_circle_mul_mod(a: (int, int), b: (int, int))
    ensures
        circle_mul(a, b) == ((a.0 * b.0 - a.1 * b.1) % (P as int), (a.0 * b.1 + a.1 * b.0) % (P as int)),
        circle_coords(circle_mul(a, b)),
{
    let p = P as int;
    let u = a.0 * b.0;
    let v = a.1 * b.1;
    lemma_mod_add_multiples_vanish(u % p - v % p, p);
    lemma_sub_mod_noop(u, v, p);
    assert((u % p + p - v % p) == p + (u % p - v % p));
    lemma_add_mod_noop(a.0 * b.1, a.1 * b.0, p);
    lemma_mod_bound(u - v, p);
    lemma_mod_bound(a.0 * b.1 + a.1 * b.0, p);
}

/// Reducing a factor before a product and a sum or difference changes
/// nothing modulo the order.
proof fn lemma_mod_lin(u: int, v: int, c: int, d: int)
    ensures
        ((u % (P as int)) * c - (v % (P as int)) * d) % (P as int) == (u * c - v * d) % (P as int),
        ((u % (P as int)) * c + (v % (P as int)) * d) % (P as int) == (u * c + v * d) % (P as int),
        (c * (u % (P as int)) - d * (v % (P as int))) % (P as int) == (c * u - d * v) % (P as int),
        (c * (u % (P as int)) + d * (v % (P as int))) % (P as int) == (c * u + d * v) % (P as int),
{
    let p = P as int;
    let (ur, vr) = (u % p, v % p);
    lemma_mul_mod_noop_left(u, c, p);
    lemma_mul_mod_noop_left(v, d, p);
    assert(c * ur == ur * c && c * u == u * c && d * vr == vr * d && d * v == v * d) by (nonlinear_arith);
    lemma_sub_mod_noop(ur * c, vr * d, p);
    lemma_sub_mod_noop(u * c, v * d, p);
    lemma_add_mod_noop(ur * c, vr * d, p);
    lemma_add_mod_noop(u * c, v * d, p);
}


/// `(ac - bd)^2 + (ad + bc)^2 == (a^2 + b^2)(c^2 + d^2)`.
proof fn lemma_two_squares(a: int, b: int, c: int, d: int)
    ensures
        (a * c - b * d) * (a * c - b * d) + (a * d + b * c) * (a * d + b * c) == (a * a + b * b) * (c * c + d * d),
{
    let (p, q, r, s) = (a * c, b * d, a * d, b * c);
    let (aa, bb, cc, dd) = (a * a, b * b, c * c, d * d);
    assert((p - q) * (p - q) == p * p - 2 * (p * q) + q * q) by (nonlinear_arith);
    assert((r + s) * (r + s) == r * r + 2 * (r * s) + s * s) by (nonlinear_arith);
    assert((aa + bb) * (cc + dd) == aa * cc + aa * dd + bb * cc + bb * dd) by (nonlinear_arith);
    assert(p * p == aa * cc) by (nonlinear_arith)
        requires
            p == a * c,
            aa == a * a,
            cc == c * c,
    ;
    assert(q * q == bb * dd) by (nonlinear_arith)
        requires
            q == b * d,
            bb == b * b,
            dd == d * d,
    ;
    assert(r * r == aa * dd) by (nonlinear_arith)
        requires
            r == a * d,
            aa == a * a,
            dd == d * d,
    ;
    assert(s * s == bb * cc) by (nonlinear_arith)
        requires
            s == b * c,
            bb == b * b,
            cc == c * c,
    ;
    assert(p * q == r * s) by (nonlinear_arith)
        requires
            p == a * c,
            q == b * d,
            r == a * d,
            s == b * c,
    ;
}

/// Complex multiplication is associative, as an identity of integers.
proof fn lemma_complex_assoc(a0: int, a1: int, b0: int, b1: int, c0: int, c1: int)
    ensures
        (a0 * b0 - a1 * b1) * c0 - (a0 * b1 + a1 * b0) * c1 == a0 * (b0 * c0 - b1 * c1) - a1 * (b0 * c1
            + b1 * c0),
        (a0 * b0 - a1 * b1) * c1 + (a0 * b1 + a1 * b0) * c0 == a0 * (b0 * c1 + b1 * c0) + a1 * (b0 * c0
            - b1 * c1),
{
    lemma_mul_is_distributive_sub_other_way(c0, a0 * b0, a1 * b1);
    lemma_mul_is_distributive_sub_other_way(c1, a0 * b0, a1 * b1);
    lemma_mul_is_distributive_add_other_way(c0, a0 * b1, a1 * b0);
    lemma_mul_is_distributive_add_other_way(c1, a0 * b1, a1 * b0);
    lemma_mul_is_distributive_sub(a0, b0 * c0, b1 * c1);
    lemma_mul_is_distributive_sub(a1, b0 * c0, b1 * c1);
    lemma_mul_is_distributive_add(a0, b0 * c1, b1 * c0);
    lemma_mul_is_distributive_add(a1, b0 * c1, b1 * c0);
    lemma_mul_is_associative(a0, b0, c0);
    lemma_mul_is_associative(a0, b0, c1);
    lemma_mul_is_associative(a0, b1, c0);
    lemma_mul_is_associative(a0, b1, c1);
    lemma_mul_is_associative(a1, b0, c0);
    lemma_mul_is_associative(a1, b0, c1);
    lemma_mul_is_associative(a1, b1, c0);
    lemma_mul_is_associative(a1, b1, c1);
}

/// The product of two points of the circle is on the circle.
pub proof fn lemma_circle_mul_closed(a: (int, int), b: (int, int))
    requires
        on_circle(a),
        on_circle(b),
    ensures
        on_circle(circle_mul(a, b)),
{
    let p = P as int;
    lemma_circle_mul_mod(a, b);
    let x = a.0 * b.0 - a.1 * b.1;
    let y = a.0 * b.1 + a.1 * b.0;
    let na = a.0 * a.0 + a.1 * a.1;
    let nb = b.0 * b.0 + b.1 * b.1;
    lemma_add_mod_noop(a.0 * a.0, a.1 * a.1, p);
    lemma_add_mod_noop(b.0 * b.0, b.1 * b.1, p);
    lemma_mul_mod_noop(x, x, p);
    lemma_mul_mod_noop(y, y, p);
    lemma_add_mod_noop(x * x, y * y, p);
    lemma_two_squares(a.0, a.1, b.0, b.1);
    lemma_mul_mod_noop(na, nb, p);
    lemma_small_mod(1, P as nat);
}

/// `(1, 0)` is the identity, and the operation is commutative.
pub proof fn lemma_circle_identity_comm(a: (int, int), b: (int, int))
    requires
        circle_coords(a),
    ensures
        circle_mul(a, (1, 0)) == a,
        circle_mul((1, 0), a) == a,
        circle_mul(a, b) == circle_mul(b, a),
{
    lemma_circle_mul_mod(a, (1, 0));
    lemma_circle_mul_mod((1, 0), a);
    lemma_circle_mul_mod(a, b);
    lemma_circle_mul_mod(b, a);
    lemma_small_mod(a.0 as nat, P as nat);
    lemma_small_mod(a.1 as nat, P as nat);
    assert(a.0 * b.0 - a.1 * b.1 == b.0 * a.0 - b.1 * a.1 && a.0 * b.1 + a.1 * b.0 == b.0 * a.1 + b.1 * a.0)
        by (nonlinear_arith);
}

/// The operation is associative.
pub proof fn lemma_circle_mul_assoc(a: (int, int), b: (int, int), c: (int, int))
    ensures
        circle_mul(circle_mul(a, b), c) == circle_mul(a, circle_mul(b, c)),
{
    let p = P as int;
    let (x1, y1) = (a.0 * b.0 - a.1 * b.1, a.0 * b.1 + a.1 * b.0);
    let (x2, y2) = (b.0 * c.0 - b.1 * c.1, b.0 * c.1 + b.1 * c.0);
    lemma_circle_mul_mod(a, b);
    lemma_circle_mul_mod(b, c);
    lemma_circle_mul_mod(circle_mul(a, b), c);
    lemma_circle_mul_mod(a, circle_mul(b, c));
    lemma_mod_lin(x1, y1, c.0, c.1);
    lemma_mod_lin(y1, x1, c.0, c.1);
    lemma_mod_lin(x1, y1, c.1, c.0);
    lemma_mod_lin(x2, y2, a.0, a.1);
    lemma_mod_lin(y2, x2, a.0, a.1);
    lemma_complex_assoc(a.0, a.1, b.0, b.1, c.0, c.1);
    assert(y1 * c.0 + x1 * c.1 == x1 * c.1 + y1 * c.0);
    assert(a.1 * x2 + a.0 * y2 == a.0 * y2 + a.1 * x2);
}


proof fn lemma_domain_point_coords(g: (int, int), k: nat)
    ensures
        circle_coords(domain_point(g, k)),
    decreases k,
{
    if k > 0 {
        lemma_circle_mul_mod(domain_point(g, (k - 1) as nat), g);
    }
}

/// `g^(m + n) == g^m * g^n`.
pub proof fn lemma_domain_point_add(g: (int, int), m: nat, n: nat)
    ensures
        domain_point(g, m + n) == circle_mul(domain_point(g, m), domain_point(g, n)),
    decreases n,
{
    lemma_domain_point_coords(g, m);
    if n == 0 {
        lemma_circle_identity_comm(domain_point(g, m), g);
    } else {
        let n1 = (n - 1) as nat;
        lemma_domain_point_add(g, m, n1);
        lemma_circle_mul_assoc(domain_point(g, m), domain_point(g, n1), g);
        assert(domain_point(g, m + n) == circle_mul(domain_point(g, (m + n - 1) as nat), g));
        assert((m + n - 1) as nat == m + n1);
    }
}

/// Square-and-multiply computes the power by repeated multiplication:
/// `circle_pow(g, e)` is `g` multiplied `e` times onto the identity.
pub proof fn lemma_circle_pow_repeated(g: (int, int), e: u64)
    ensures
        circle_pow(g, e) == domain_point(g, e as nat),
{
    lemma_circle_pow_steps(g, e, 64);
    lemma_shr_zero(e);
}

proof fn lemma_circle_pow_steps(g: (int, int), e: u64, j: nat)
    requires
        j <= 64,
    ensures
        circle_pow_steps(g, e, j) == domain_point(g, shr_or_zero(e, (64 - j) as u32)),
    decreases j,
{
    if j > 0 {
        let i = (64 - j) as u32;
        lemma_circle_pow_steps(g, e, (j - 1) as nat);
        assert((64 - (j - 1)) as u32 == (i + 1) as u32);
        lemma_shr_step(e, i);
        let k = shr_or_zero(e, (i + 1) as u32);
        lemma_domain_point_add(g, k, k);
        assert((i as u64) == (64 - j) as u64);
    }
}

/// `g` squared `k` times: `g^(2^k)`.
pub open spec fn circle_square_iter(g: (int, int), k: nat) -> (int, int)
    decreases k,
{
    if k == 0 {
        g
    } else {
        let h = circle_square_iter(g, (k - 1) as nat);
        circle_mul(h, h)
    }
}

/// The successive squares of the generator, computed in four stretches
/// so that each proof stays small.
proof fn lemma_generator_orbit_0()
    ensures
        circle_square_iter(circle_generator(), 8) == (421007138int, 256177860int),
{
    assert(circle_square_iter(circle_generator(), 0) == circle_generator());
    assert(circle_square_iter(circle_generator(), 1) == (7int, 777079998int));
    assert(circle_square_iter(circle_generator(), 2) == (97int, 141701737int));
    assert(circle_square_iter(circle_generator(), 3) == (18817int, 1720333214int));
    assert(circle_square_iter(circle_generator(), 4) == (708158977int, 683185920int));
    assert(circle_square_iter(circle_generator(), 5) == (334835419int, 1444967316int));
    assert(circle_square_iter(circle_generator(), 6) == (2042371533int, 1362265296int));
    assert(circle_square_iter(circle_generator(), 7) == (212706801int, 1223819887int));
    assert(circle_square_iter(circle_generator(), 8) == (421007138int, 256177860int));
}

proof fn lemma_generator_orbit_1()
    ensures
        circle_square_iter(circle_generator(), 16) == (1543902459int, 1632329423int),
{
    lemma_generator_orbit_0();
    assert(circle_square_iter(circle_generator(), 9) == (6346213int, 905523693int));
    assert(circle_square_iter(circle_generator(), 10) == (1022251061int, 788094511int));
    assert(circle_square_iter(circle_generator(), 11) == (1633461177int, 574296567int));
    assert(circle_square_iter(circle_generator(), 12) == (595037635int, 2111542451int));
    assert(circle_square_iter(circle_generator(), 13) == (1799120754int, 343598868int));
    assert(circle_square_iter(circle_generator(), 14) == (438833264int, 1327019128int));
    assert(circle_square_iter(circle_generator(), 15) == (1389168750int, 838891026int));
    assert(circle_square_iter(circle_generator(), 16) == (1543902459int, 1632329423int));
}

proof fn lemma_generator_orbit_2()
    ensures
        circle_square_iter(circle_generator(), 24) == (838195206int, 1774253895int),
{
    lemma_generator_orbit_1();
    assert(circle_square_iter(circle_generator(), 17) == (1330239767int, 1446369578int));
    assert(circle_square_iter(circle_generator(), 18) == (1420207432int, 2023238517int));
    assert(circle_square_iter(circle_generator(), 19) == (2015554631int, 1088093947int));
    assert(circle_square_iter(circle_generator(), 20) == (996212859int, 1140996376int));
    assert(circle_square_iter(circle_generator(), 21) == (1434706457int, 1835793811int));
    assert(circle_square_iter(circle_generator(), 22) == (13610297int, 1064696601int));
    assert(circle_square_iter(circle_generator(), 23) == (785043271int, 1260750973int));
    assert(circle_square_iter(circle_generator(), 24) == (838195206int, 1774253895int));
}

proof fn lemma_generator_orbit_3()
    ensures
        circle_square_iter(circle_generator(), 30) == ((P - 1) as int, 0int),
        circle_square_iter(circle_generator(), 31) == (1int, 0int),
{
    lemma_generator_orbit_2();
    assert(circle_square_iter(circle_generator(), 25) == (579625837int, 1690787918int));
    assert(circle_square_iter(circle_generator(), 26) == (1179735656int, 1241207368int));
    assert(circle_square_iter(circle_generator(), 27) == (590768354int, 978592373int));
    assert(circle_square_iter(circle_generator(), 28) == (32768int, 2147450879int));
    assert(circle_square_iter(circle_generator(), 29) == (0int, 2147483646int));
    assert(circle_square_iter(circle_generator(), 30) == (2147483646int, 0int));
    assert(circle_square_iter(circle_generator(), 31) == (1int, 0int));
}

/// Squaring `k` times is raising to the power `2^k`.
pub proof fn lemma_square_iter_power(g: (int, int), k: nat)
    requires
        circle_coords(g),
    ensures
        circle_square_iter(g, k) == domain_point(g, pow2(k)),
    decreases k,
{
    if k == 0 {
        lemma2_to64();
        lemma_domain_point_coords(g, 0);
        lemma_circle_identity_comm(g, g);
        assert(domain_point(g, 1) == circle_mul(domain_point(g, 0), g));
    } else {
        let k1 = (k - 1) as nat;
        lemma_square_iter_power(g, k1);
        lemma_pow2_unfold(k);
        lemma_domain_point_add(g, pow2(k1), pow2(k1));
    }
}

/// `(g^a)^b == g^(a * b)`.
pub proof fn lemma_domain_point_mul(g: (int, int), a: nat, b: nat)
    ensures
        domain_point(domain_point(g, a), b) == domain_point(g, a * b),
    decreases b,
{
    if b > 0 {
        let b1 = (b - 1) as nat;
        lemma_domain_point_mul(g, a, b1);
        lemma_domain_point_add(g, a * b1, a);
        assert(a * b1 + a == a * b) by (nonlinear_arith)
            requires
                b1 == b - 1,
        ;
    } else {
        assert(a * b == 0) by (nonlinear_arith)
            requires
                b == 0,
        ;
    }
}

/// The generator lies on the circle.
pub proof fn lemma_generator_on_circle()
    ensures
        on_circle(circle_generator()),
{
}

/// Powers of a point of the circle stay on the circle.
pub proof fn lemma_domain_point_on_circle(g: (int, int), k: nat)
    requires
        on_circle(g),
    ensures
        on_circle(domain_point(g, k)),
    decreases k,
{
    if k == 0 {
        lemma_small_mod(1, P as nat);
        lemma_small_mod(0, P as nat);
    } else {
        lemma_domain_point_on_circle(g, (k - 1) as nat);
        lemma_circle_mul_closed(domain_point(g, (k - 1) as nat), g);
    }
}

/// The generator has order `2^31`: its `2^31`-th power is the identity and
/// its `2^30`-th power is `-1`.
pub proof fn lemma_generator_order()
    ensures
        domain_point(circle_generator(), pow2(31)) == (1int, 0int),
        domain_point(circle_generator(), pow2(30)) == ((P - 1) as int, 0int),
{
    lemma_generator_orbit_3();
    lemma_square_iter_power(circle_generator(), 31);
    lemma_square_iter_power(circle_generator(), 30);
}

/// The generator of the subgroup of order `2^log_n` lies on the circle and
/// has order exactly `2^log_n`: its `2^log_n`-th power is the identity, and
/// for `log_n >= 1` its `2^(log_n - 1)`-th power is `-1`.
pub proof fn lemma_subgroup_generator_order(log_n: u32)
    requires
        log_n <= 31,
    ensures
        ({
            let h = circle_pow(circle_generator(), (1u64 << ((31 - log_n) as u64)) as u64);
            &&& on_circle(h)
            &&& domain_point(h, pow2(log_n as nat)) == (1int, 0int)
            &&& log_n >= 1 ==> domain_point(h, pow2((log_n - 1) as nat)) == ((P - 1) as int, 0int)
        }),
{
    let g = circle_generator();
    let e = (31 - log_n) as nat;
    lemma2_to64();
    lemma_u64_shl_is_mul(1, e as u64);
    let s: u64 = 1u64 << (e as u64);
    assert(s as nat == pow2(e));
    lemma_circle_pow_repeated(g, s);
    lemma_generator_on_circle();
    lemma_domain_point_on_circle(g, s as nat);
    lemma_generator_order();
    lemma_domain_point_mul(g, pow2(e), pow2(log_n as nat));
    lemma_pow2_adds(e, log_n as nat);
    assert(e + log_n == 31);
    if log_n >= 1 {
        lemma_domain_point_mul(g, pow2(e), pow2((log_n - 1) as nat));
        lemma_pow2_adds(e, (log_n - 1) as nat);
        assert(e + (log_n - 1) == 30);
    }
}

} // verus!
