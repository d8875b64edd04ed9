use plonky_cat::code::{rs_encode, Error as CodeError, RsParams};
use plonky_cat::field::{BabyBear, Field, Goldilocks};
use plonky_cat::hash::{AlgebraicHash, Griffin, Hasher, Poseidon2, Tip5};
use plonky_cat::merkle::{AuthPath, Error as MerkleError, MerkleTree};
use plonky_cat::poly::UnivariatePoly;

type F = BabyBear;
type H = AlgebraicHash<F>;

fn bb(v: u64) -> F {
    F::from(v)
}

fn bbs(vs: &[u64]) -> Vec<F> {
    vs.iter().map(|v| bb(*v)).collect()
}

#[test]
fn algebraic_hash_value() {
    // (3 + 4)^5 + 3 * 4
    assert_eq!(H::hash_pair(bb(3), bb(4)), bb(16819));
}

#[test]
fn poseidon2_value() {
    assert_eq!(Poseidon2::hash_pair(bb(1), bb(2)), bb(1331344977));
    assert_ne!(Poseidon2::hash_pair(bb(1), bb(2)), Poseidon2::hash_pair(bb(2), bb(1)));
}

#[test]
fn griffin_value() {
    assert_eq!(Griffin::hash_pair(bb(1), bb(2)), bb(185293735));
}

#[test]
fn tip5_value() {
    assert_eq!(Tip5::hash_pair(Goldilocks::from(1u64), Goldilocks::from(2u64)), Goldilocks::from(1931897031530074624u64));
}

#[test]
fn merkle_build_errors() {
    assert!(matches!(MerkleTree::<H>::build(vec![]), Err(MerkleError::EmptyLeaves)));
    assert!(matches!(MerkleTree::<H>::build(bbs(&[1, 2, 3])), Err(MerkleError::NotPowerOfTwo { len: 3 })));
}

#[test]
fn merkle_root_and_shape() {
    let tree = MerkleTree::<H>::build(bbs(&[1, 2, 3, 4])).unwrap();
    assert_eq!(tree.root().unwrap(), bb(1512780021));
    assert_eq!(tree.num_leaves(), 4);
    assert_eq!(tree.depth(), 2);
    assert_eq!(tree.leaf(2).unwrap(), bb(3));
    assert!(matches!(tree.leaf(4), Err(MerkleError::LeafIndexOutOfBounds { index: 4, num_leaves: 4 })));
}

#[test]
fn every_auth_path_verifies() {
    let leaves = bbs(&[10, 20, 30, 40, 50, 60, 70, 80]);
    let tree = MerkleTree::<H>::build(leaves.clone()).unwrap();
    let root = tree.root().unwrap();
    for (i, leaf) in leaves.iter().enumerate() {
        let path = tree.auth_path(i).unwrap();
        assert_eq!(path.leaf_index(), i);
        assert_eq!(path.siblings().len(), 3);
        assert!(path.verify::<H>(*leaf, root));
        assert!(!path.verify::<H>(leaf.add(F::one()), root));
    }
}

#[test]
fn auth_path_accessors() {
    let path = AuthPath::new(bbs(&[1, 2]), 3);
    assert_eq!(path.leaf_index(), 3);
    assert_eq!(path.into_siblings(), bbs(&[1, 2]));
}

#[test]
fn rs_params_and_errors() {
    let params = RsParams::new(3, 1).unwrap();
    assert_eq!(params.codeword_len(), 8);
    assert_eq!(params.message_len(), 4);
    assert_eq!(params.log_n(), 3);
    assert_eq!(params.log_rate_inv(), 1);
    assert!(matches!(RsParams::new(3, 0), Err(CodeError::InvalidRate)));
}

#[test]
fn rs_encode_evaluates_the_message() {
    let message = bbs(&[1, 2, 3, 4]);
    let params = RsParams::new(3, 1).unwrap();
    let omega = F::root_of_unity(3).unwrap();
    let codeword = rs_encode(&message, omega, params).unwrap();
    assert_eq!(codeword.len(), 8);
    let p = UnivariatePoly::from_coeffs(message.clone()).unwrap();
    for (k, c) in codeword.iter().enumerate() {
        assert_eq!(*c, p.evaluate(omega.pow(k as u64)));
    }
    let too_long = bbs(&[1, 2, 3, 4, 5]);
    assert!(matches!(rs_encode(&too_long, omega, params), Err(CodeError::MessageTooLong { .. })));
}
