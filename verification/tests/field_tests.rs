use plonky_cat::field::{BabyBear, BinaryField8, Error, Field, Goldilocks, Mersenne31};

fn bb(v: u64) -> BabyBear {
    BabyBear::from(v)
}

#[test]
fn babybear_modulus_and_two_adicity() {
    assert_eq!(BabyBear::modulus(), 2013265921);
    assert_eq!(BabyBear::two_adic_order(), 27);
    assert_eq!(u64::from(BabyBear::two_adic_generator()), 440564289);
}

#[test]
fn other_moduli() {
    assert_eq!(Mersenne31::modulus(), 2147483647);
    assert_eq!(Goldilocks::modulus(), 18446744069414584321);
}

#[test]
fn from_reduces_modulo_p() {
    assert_eq!(bb(2013265921), bb(0));
    assert_eq!(bb(2013265922), bb(1));
    assert_eq!(BabyBear::from(5u32), bb(5));
}

#[test]
fn add_commutative_associative_identity_inverse() {
    let a = bb(123456789);
    let b = bb(2013265920);
    let c = bb(987654321);
    assert_eq!(a.add(b), b.add(a));
    assert_eq!(a.add(b).add(c), a.add(b.add(c)));
    assert_eq!(a.add(BabyBear::zero()), a);
    assert_eq!(a.add(a.neg()), BabyBear::zero());
    assert_eq!(a.sub(b), a.add(b.neg()));
    assert_eq!(b.add(bb(1)), BabyBear::zero());
}

#[test]
fn mul_commutative_associative_identity_distributive() {
    let a = bb(123456789);
    let b = bb(2013265920);
    let c = bb(987654321);
    assert_eq!(a.mul(b), b.mul(a));
    assert_eq!(a.mul(b).mul(c), a.mul(b.mul(c)));
    assert_eq!(a.mul(BabyBear::one()), a);
    assert_eq!(a.mul(BabyBear::zero()), BabyBear::zero());
    assert_eq!(a.mul(b.add(c)), a.mul(b).add(a.mul(c)));
    assert_eq!(b.mul(b), BabyBear::one());
}

#[test]
fn mul_inverse_is_one() {
    for v in [1u64, 2, 5, 123456789, 2013265920] {
        let a = bb(v);
        let inv = a.inv().unwrap();
        assert_eq!(a.mul(inv), BabyBear::one());
    }
    let m = Mersenne31::from(7u64);
    assert_eq!(m.mul(m.inv().unwrap()), Mersenne31::one());
    let g = Goldilocks::from(7u64);
    assert_eq!(g.mul(g.inv().unwrap()), Goldilocks::one());
}

#[test]
fn inv_of_inv() {
    let a = bb(31337);
    assert_eq!(a.inv().unwrap().inv().unwrap(), a);
}

#[test]
fn inverse_of_zero_is_an_error() {
    assert_eq!(BabyBear::zero().inv(), Err(Error::DivisionByZero));
    assert_eq!(Mersenne31::zero().inv(), Err(Error::DivisionByZero));
    assert_eq!(Goldilocks::zero().inv(), Err(Error::DivisionByZero));
}

#[test]
fn pow_matches_repeated_mul() {
    let a = bb(987654321);
    assert_eq!(a.pow(3), a.mul(a).mul(a));
    assert_eq!(a.pow(0), BabyBear::one());
    assert_eq!(bb(2).pow(10), bb(1024));
    let g = Goldilocks::from(3u64);
    assert_eq!(g.pow(3), Goldilocks::from(27u64));
}

#[test]
fn double_and_square() {
    let a = bb(1000);
    assert_eq!(a.double(), bb(2000));
    assert_eq!(a.square(), bb(1000000));
}

#[test]
fn root_of_unity_has_the_right_order() {
    let w = BabyBear::root_of_unity(3).unwrap();
    assert_eq!(u64::from(w), 1592366214);
    assert_eq!(w.pow(8), BabyBear::one());
    assert_eq!(w.pow(4), bb(2013265920));
    assert_eq!(BabyBear::root_of_unity(0).unwrap(), BabyBear::one());
    assert_eq!(BabyBear::root_of_unity(28), Err(Error::InvalidFieldElement));
}

#[test]
fn mersenne31_arithmetic() {
    let a = Mersenne31::from(2147483646u64);
    assert_eq!(a.add(Mersenne31::from(1u64)), Mersenne31::zero());
    assert_eq!(a.mul(a), Mersenne31::one());
}

#[test]
fn goldilocks_wraps() {
    let p_minus_one = Goldilocks::from(18446744069414584320u64);
    assert_eq!(p_minus_one.add(Goldilocks::one()), Goldilocks::zero());
    assert_eq!(p_minus_one.mul(p_minus_one), Goldilocks::one());
}

#[test]
fn equals_compares_values() {
    assert!(bb(5).equals(bb(2013265926)));
    assert!(!bb(5).equals(bb(6)));
}

fn g8(v: u8) -> BinaryField8 {
    BinaryField8::from_byte(v)
}

#[test]
fn binary8_addition_is_xor() {
    assert_eq!(g8(0x57).add(g8(0x83)), g8(0xd4));
    assert_eq!(g8(0x57).sub(g8(0x83)), g8(0xd4));
    assert_eq!(g8(0x57).neg(), g8(0x57));
    assert_eq!(g8(0x57).add(g8(0x57)), BinaryField8::zero());
    assert_eq!(g8(0x57).double(), BinaryField8::zero());
}

#[test]
fn binary8_aes_products() {
    assert_eq!(g8(0x57).mul(g8(0x83)), g8(0xc1));
    assert_eq!(g8(0x57).mul(g8(0x13)), g8(0xfe));
    assert_eq!(g8(0x80).mul(g8(0x02)), g8(0x1b));
    assert_eq!(g8(0x02).pow(8), g8(0x1b));
    assert_eq!(g8(0x03).square(), g8(0x05));
    assert_eq!(g8(0xab).mul(BinaryField8::one()), g8(0xab));
    assert_eq!(g8(0xab).mul(BinaryField8::zero()), BinaryField8::zero());
}

#[test]
fn binary8_inverse() {
    assert_eq!(g8(0x53).inv().unwrap(), g8(0xca));
    assert_eq!(BinaryField8::zero().inv(), Err(Error::DivisionByZero));
    for v in 1..=255u8 {
        let a = g8(v);
        assert_eq!(a.mul(a.inv().unwrap()), BinaryField8::one());
        assert_eq!(a.inv().unwrap().inv().unwrap(), a);
    }
}

#[test]
fn binary8_axioms_on_samples() {
    let samples = [0u8, 1, 2, 0x1b, 0x57, 0x83, 0xca, 0xff];
    for &x in &samples {
        for &y in &samples {
            for &z in &samples {
                let (a, b, c) = (g8(x), g8(y), g8(z));
                assert_eq!(a.add(b), b.add(a));
                assert_eq!(a.mul(b), b.mul(a));
                assert_eq!(a.add(b).add(c), a.add(b.add(c)));
                assert_eq!(a.mul(b).mul(c), a.mul(b.mul(c)));
                assert_eq!(a.mul(b.add(c)), a.mul(b).add(a.mul(c)));
            }
        }
    }
}

#[test]
fn binary8_conversions() {
    assert_eq!(BinaryField8::from(0x157u64), g8(0x57));
    assert_eq!(BinaryField8::from(0x2ffu32), g8(0xff));
    assert_eq!(g8(0xa5).to_byte(), 0xa5);
    assert!(g8(7).equals(BinaryField8::from(7u64)));
    assert!(!g8(7).equals(g8(8)));
}

#[test]
fn binary8_frobenius_and_fixed_points() {
    for v in 0..=255u8 {
        let a = g8(v);
        assert_eq!(a.pow(256), a);
        if a.square() == a {
            assert!(v == 0 || v == 1);
        }
    }
}
