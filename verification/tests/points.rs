//! Tests for the deferred point-operation queue.

use zkvm::errors::VMError;
use zkvm::point_ops::{verify_batch, PointOp};

fn basepoint() -> Vec<u8> {
    curve25519_dalek::constants::RISTRETTO_BASEPOINT_COMPRESSED.to_bytes().to_vec()
}

fn scalar_one() -> Vec<u8> {
    let mut s = vec![0u8; 32];
    s[0] = 1;
    s
}

fn scalar_minus_one() -> Vec<u8> {
    (-curve25519_dalek::scalar::Scalar::ONE).to_bytes().to_vec()
}

#[test]
fn empty_queue_verifies() {
    assert_eq!(verify_batch(&Vec::new()), Ok(()));
}

#[test]
fn cancelling_combination_verifies() {
    // 1*B + (-1)*B equals the identity.
    let op = PointOp { terms: vec![(scalar_one(), basepoint()), (scalar_minus_one(), basepoint())] };
    assert_eq!(verify_batch(&vec![op]), Ok(()));
}

#[test]
fn non_identity_combination_fails() {
    let op = PointOp { terms: vec![(scalar_one(), basepoint())] };
    assert_eq!(verify_batch(&vec![op]), Err(VMError::PointOperationFailed));
}

#[test]
fn any_failing_operation_fails_the_batch() {
    let good =
        PointOp { terms: vec![(scalar_one(), basepoint()), (scalar_minus_one(), basepoint())] };
    let bad = PointOp { terms: vec![(scalar_one(), basepoint())] };
    assert_eq!(verify_batch(&vec![good, bad]), Err(VMError::PointOperationFailed));
}

#[test]
fn invalid_point_bytes_fail() {
    let op = PointOp { terms: vec![(scalar_one(), vec![0xffu8; 32])] };
    assert_eq!(verify_batch(&vec![op]), Err(VMError::PointOperationFailed));
}

#[test]
fn non_canonical_scalar_fails() {
    // The group order itself is not a canonical scalar encoding.
    let order: Vec<u8> = vec![
        0xed, 0xd3, 0xf5, 0x5c, 0x1a, 0x63, 0x12, 0x58, 0xd6, 0x9c, 0xf7, 0xa2, 0xde, 0xf9, 0xde,
        0x14, 0, 0, 0, 0, 0, 0, 0, 0, 0, 0, 0, 0, 0, 0, 0, 0x10,
    ];
    let op = PointOp { terms: vec![(order, basepoint())] };
    assert_eq!(verify_batch(&vec![op]), Err(VMError::PointOperationFailed));
}
