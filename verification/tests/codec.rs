//! Tests for the binary codec and the commitment table.

use zkvm::encoding::{read_bytes, read_u8, read_u8x32, read_usize, write_bytes, write_u32, write_u64, write_u8};
use zkvm::errors::VMError;
use zkvm::table::CommitmentTable;

#[test]
fn read_usize_little_endian() {
    let buf = vec![0x2a, 0x00, 0x00, 0x00, 0xff];
    let (n, pos) = read_usize(&buf, 0).unwrap();
    assert_eq!(n, 42);
    assert_eq!(pos, 4);
}

#[test]
fn read_usize_multibyte() {
    let buf = vec![0x01, 0x02, 0x03, 0x04];
    let (n, _) = read_usize(&buf, 0).unwrap();
    assert_eq!(n, 0x04030201);
}

#[test]
fn read_usize_truncated() {
    let buf = vec![0x2a, 0x00, 0x00];
    assert_eq!(read_usize(&buf, 0), Err(VMError::FormatError));
}

#[test]
fn read_u8_past_end() {
    let buf = vec![7u8];
    assert_eq!(read_u8(&buf, 0), Ok((7u8, 1)));
    assert_eq!(read_u8(&buf, 1), Err(VMError::FormatError));
}

#[test]
fn read_u8x32_truncated() {
    let buf = vec![0u8; 31];
    assert_eq!(read_u8x32(&buf, 0), Err(VMError::FormatError));
}

#[test]
fn write_u32_round_trip() {
    let mut out: Vec<u8> = Vec::new();
    write_u32(&mut out, 0xdeadbeef);
    assert_eq!(out, vec![0xef, 0xbe, 0xad, 0xde]);
    let (n, _) = read_usize(&out, 0).unwrap();
    assert_eq!(n, 0xdeadbeef);
}

#[test]
fn write_u64_little_endian() {
    let mut out: Vec<u8> = Vec::new();
    write_u64(&mut out, 0x0102030405060708);
    assert_eq!(out, vec![8, 7, 6, 5, 4, 3, 2, 1]);
}

#[test]
fn write_read_bytes_round_trip() {
    let mut out: Vec<u8> = Vec::new();
    write_u8(&mut out, 0xab);
    let payload = vec![1u8, 2, 3, 4, 5];
    write_bytes(&mut out, &payload);
    let (got, pos) = read_bytes(&out, 1, 5).unwrap();
    assert_eq!(got, payload);
    assert_eq!(pos, 6);
}

#[test]
fn allocate_returns_increasing_indices() {
    let mut table = CommitmentTable::new();
    let mut indices = Vec::new();
    for i in 0..5u8 {
        let var = table.allocate(vec![i; 32]);
        indices.push(var.index);
    }
    assert_eq!(indices, vec![0, 1, 2, 3, 4]);
    assert_eq!(table.len(), 5);
    for i in 0..5u8 {
        let var = zkvm::types::Variable { index: i as usize };
        assert_eq!(table.resolve(&var), &vec![i; 32]);
    }
}

#[test]
fn attach_is_one_directional() {
    let mut table = CommitmentTable::new();
    let var = table.allocate(vec![9u8; 32]);
    assert_eq!(table.attach(&var, 7), Ok(()));
    assert_eq!(table.resolve(&var), &vec![9u8; 32]);
    assert_eq!(table.attach(&var, 8), Err(VMError::FormatError));
}

#[test]
fn reblind_only_while_detached() {
    let mut table = CommitmentTable::new();
    let var = table.allocate(vec![1u8; 32]);
    assert_eq!(table.reblind(&var, vec![2u8; 32]), Ok(()));
    assert_eq!(table.resolve(&var), &vec![2u8; 32]);
    assert_eq!(table.attach(&var, 0), Ok(()));
    assert_eq!(table.reblind(&var, vec![3u8; 32]), Err(VMError::FormatError));
    assert_eq!(table.resolve(&var), &vec![2u8; 32]);
}
