//! Reed-Solomon encoding by evaluation on a multiplicative subgroup.

use vstd::prelude::*;
use vstd::arithmetic::power2::pow2;

use crate::fft::{ntt, ntt_spec};
use crate::field::{all_in_field, in_field, lemma_pow_in_field, values, vpow, Field};
use crate::poly::univariate::horner;

pub mod error;

pub use self::error::Error;

verus! {

/// A code of length `2^log_n` and rate `2^-log_rate_inv`.
#[derive(Debug, Clone, Copy, PartialEq, Eq)]
pub struct RsParams {
    log_n: u32,
    log_rate_inv: u32,
}

impl View for RsParams {
    type V = (u32, u32);

    /// `(log_n, log_rate_inv)`.
    closed spec fn view(&self) -> (u32, u32) {
        (self.log_n, self.log_rate_inv)
    }
}

/// The message padded with zeros to length `n`.
pub open spec fn pad_zeros(m: Seq<int>, n: nat) -> Seq<int> {
    Seq::new(n, |i: int| if i < m.len() { m[i] } else { 0 })
}

impl RsParams {
    pub fn new(log_n: u32, log_rate_inv: u32) -> (r: Result<Self, Error>)
        ensures
            log_rate_inv == 0 ==> r == Err::<Self, Error>(Error::InvalidRate),
            log_rate_inv != 0 ==> r is Ok && r->Ok_0@ == (log_n, log_rate_inv),
    {
        if log_rate_inv == 0 {
            Err(Error::InvalidRate)
        } else {
            Ok(Self { log_n, log_rate_inv })
        }
    }

    /// `2^log_n`.
    pub fn codeword_len(&self) -> (r: usize)
        requires
            self@.0 < usize::BITS,
        ensures
            r == pow2(self@.0 as nat),
    {
        proof {
            vstd::bits::lemma_usize_pow2_no_overflow(self.log_n as nat);
            vstd::bits::lemma_usize_shl_is_mul(1, self.log_n as usize);
        }
        1usize << self.log_n
    }

    /// `2^(log_n - log_rate_inv)`.
    pub fn message_len(&self) -> (r: usize)
        requires
            self@.1 <= self@.0 < usize::BITS,
        ensures
            r == pow2((self@.0 - self@.1) as nat),
    {
        let e = self.log_n - self.log_rate_inv;
        proof {
            vstd::bits::lemma_usize_pow2_no_overflow(e as nat);
            vstd::bits::lemma_usize_shl_is_mul(1, e as usize);
        }
        1usize << e
    }

    pub fn log_n(&self) -> (r: u32)
        ensures
            r == self@.0,
    {
        self.log_n
    }

    pub fn log_rate_inv(&self) -> (r: u32)
        ensures
            r == self@.1,
    {
        self.log_rate_inv
    }
}

/// Encodes a message of at most `2^(log_n - log_rate_inv)` symbols as the
/// transform, with root `omega`, of the message padded with zeros to `2^log_n`.
pub fn rs_encode<F: Field>(message: &[F], omega: F, params: RsParams) -> (r: Result<Vec<F>, Error>)
    requires
        params@.1 <= params@.0 < usize::BITS,
    ensures
        message@.len() > pow2((params@.0 - params@.1) as nat) ==> r == Err::<Vec<F>, Error>(
            Error::MessageTooLong {
                msg_len: message@.len() as usize,
                rate_times_n: pow2((params@.0 - params@.1) as nat) as usize,
            },
        ),
        message@.len() <= pow2((params@.0 - params@.1) as nat) ==> r is Ok && values(r->Ok_0@)
            == ntt_spec::<F>(pad_zeros(values(message@), pow2(params@.0 as nat)), omega@),
{
    let n = params.codeword_len();
    let k = params.message_len();
    if message.len() > k {
        return Err(Error::MessageTooLong { msg_len: message.len(), rate_times_n: k });
    }
    proof {
        vstd::arithmetic::power2::lemma_pow2_adds(
            (params@.0 - params@.1) as nat,
            params@.1 as nat,
        );
        vstd::arithmetic::power2::lemma_pow2_pos(params@.1 as nat);
        assert(k <= n) by (nonlinear_arith)
            requires
                n == k * pow2(params@.1 as nat),
                pow2(params@.1 as nat) > 0,
                k >= 0;
        vstd::arithmetic::power2::lemma_pow2_pos(params@.0 as nat);
    }
    let zero = F::zero();
    let mut padded: Vec<F> = Vec::new();
    let mut i: usize = 0;
    while i < n
        invariant
            message@.len() <= k <= n,
            zero@ == 0,
            i <= n,
            values(padded@) == pad_zeros(values(message@), n as nat).subrange(0, i as int),
        decreases n - i,
    {
        let v = if i < message.len() {
            message[i]
        } else {
            zero
        };
        let ghost old_p = padded@;
        padded.push(v);
        proof {
            let t = pad_zeros(values(message@), n as nat);
            assert(values(padded@) =~= values(old_p).push(v@));
            assert(t.subrange(0, i + 1) =~= t.subrange(0, i as int).push(t[i as int]));
        }
        i = i + 1;
    }
    proof {
        assert(values(padded@) =~= pad_zeros(values(message@), n as nat));
        assert(values(padded@).len() == padded@.len());
        assert(vstd::arithmetic::power2::is_pow2(n as int)) by {
            vstd::arithmetic::power2::is_pow2_equiv(n as int);
            vstd::arithmetic::power2::lemma_pow2(params@.0 as nat);
        }
    }
    match ntt(padded.as_slice(), omega) {
        Ok(v) => Ok(v),
        Err(e) => Err(Error::FftError(e)),
    }
}

} // verus!

verus! {

/// Trailing zeros do not change a polynomial's value.
proof fn lemma_horner_pad<F: Field>(m: Seq<int>, n: nat, x: int)
    requires
        m.len() <= n,
        in_field::<F>(x),
        all_in_field::<F>(m),
    ensures
        horner::<F>(pad_zeros(m, n), x) == horner::<F>(m, x),
    decreases n,
{
    F::lemma_order();
    if n > 0 {
        let p = pad_zeros(m, n);
        if m.len() > 0 {
            assert(p.drop_first() =~= pad_zeros(m.drop_first(), (n - 1) as nat));
            assert forall|i: int| 0 <= i < m.drop_first().len() implies #[trigger] in_field::<F>(m.drop_first()[i]) by {
                assert(in_field::<F>(m[i + 1]));
            }
            lemma_horner_pad::<F>(m.drop_first(), (n - 1) as nat, x);
        } else {
            assert(p.drop_first() =~= pad_zeros(m, (n - 1) as nat));
            lemma_horner_pad::<F>(m, (n - 1) as nat, x);
            F::lemma_mul_laws(x, 0, 0);
            F::lemma_mul_laws(0, x, 0);
            F::lemma_add_laws(0, 0, 0);
        }
    }
}

/// A codeword holds the values of the message polynomial at the powers of
/// `omega`, when `omega` is a principal root of unity of order `n = 2^log_n`
/// (`omega^(n/2) == -1`).
pub proof fn lemma_rs_codeword_evaluates<F: Field>(message: Seq<int>, omega: int, log_n: nat)
    requires
        message.len() <= pow2(log_n),
        all_in_field::<F>(message),
        in_field::<F>(omega),
        log_n > 0 ==> vpow::<F>(omega, pow2((log_n - 1) as nat)) == F::vneg(1),
    ensures
        ntt_spec::<F>(pad_zeros(message, pow2(log_n)), omega).len() == pow2(log_n),
        forall|k: int|
            0 <= k < pow2(log_n) ==> #[trigger] ntt_spec::<F>(pad_zeros(message, pow2(log_n)), omega)[k]
                == horner::<F>(message, vpow::<F>(omega, k as nat)),
{
    F::lemma_order();
    let p = pad_zeros(message, pow2(log_n));
    assert forall|i: int| 0 <= i < p.len() implies #[trigger] in_field::<F>(p[i]) by {
        if i < message.len() {
            assert(in_field::<F>(message[i]));
        }
    }
    crate::fft::laws::lemma_ntt_evaluates::<F>(p, omega, log_n);
    assert forall|k: int| 0 <= k < pow2(log_n) implies #[trigger] ntt_spec::<F>(p, omega)[k] == horner::<F>(
        message,
        vpow::<F>(omega, k as nat),
    ) by {
        lemma_pow_in_field::<F>(omega, k as nat);
        lemma_horner_pad::<F>(message, pow2(log_n), vpow::<F>(omega, k as nat));
    }
}

} // verus!
