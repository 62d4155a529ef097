//! Tests for output decoding and encoding, inputs, and identifiers.

use zkvm::errors::VMError;
use zkvm::txlog::{LogEntry, TxID, UTXO};
use zkvm::types::{Item, PortableItem};
use zkvm::vm::{Signature, Tx, VM};

fn empty_proof() -> bulletproofs::r1cs::R1CSProof {
    let pc_gens = bulletproofs::PedersenGens::default();
    let mut transcript = merlin::Transcript::new(b"ZkVM.r1cs");
    let prover = bulletproofs::r1cs::Prover::new(&pc_gens, &mut transcript);
    let bp_gens = bulletproofs::BulletproofGens::new(16, 1);
    prover.prove(&bp_gens).unwrap()
}

fn tx_with(program: Vec<u8>) -> Tx {
    Tx {
        version: 1,
        mintime: 0,
        maxtime: 9000,
        program,
        signature: Signature { bytes: vec![0u8; 64] },
        proof: empty_proof(),
    }
}

fn push_op(data: &[u8]) -> Vec<u8> {
    let mut out = vec![0x00];
    out.extend_from_slice(&(data.len() as u32).to_le_bytes());
    out.extend_from_slice(data);
    out
}

/// Predicate || LE32(2) || data item "abc" || value item.
fn sample_output() -> Vec<u8> {
    let mut out = vec![9u8; 32];
    out.extend_from_slice(&2u32.to_le_bytes());
    out.push(0x00);
    out.extend_from_slice(&3u32.to_le_bytes());
    out.extend_from_slice(b"abc");
    out.push(0x01);
    out.extend_from_slice(&[5u8; 32]);
    out.extend_from_slice(&[6u8; 32]);
    out
}

#[test]
fn decode_output_parses_payload_and_registers_variables() {
    let tx = tx_with(Vec::new());
    let mut vm = VM::new(&tx);
    let contract = vm.decode_output(&sample_output()).unwrap();
    assert_eq!(contract.predicate.0, vec![9u8; 32]);
    assert_eq!(contract.payload.len(), 2);
    assert!(matches!(&contract.payload[0], PortableItem::Data(d) if d.bytes == b"abc".to_vec()));
    match &contract.payload[1] {
        PortableItem::Value(v) => {
            // Quantity is registered before flavor, deterministically.
            assert_eq!(v.qty.index, 0);
            assert_eq!(v.flv.index, 1);
            assert_eq!(vm.variable_commitments.resolve(&v.qty), &vec![5u8; 32]);
            assert_eq!(vm.variable_commitments.resolve(&v.flv), &vec![6u8; 32]);
        },
        _ => panic!("expected a value item"),
    }
    assert_eq!(vm.variable_commitments.len(), 2);
}

#[test]
fn encode_output_round_trips() {
    let tx = tx_with(Vec::new());
    let mut vm = VM::new(&tx);
    let bytes = sample_output();
    let contract = vm.decode_output(&bytes).unwrap();
    assert_eq!(vm.encode_output(&contract), bytes);
}

#[test]
fn encode_output_uses_current_commitments() {
    let tx = tx_with(Vec::new());
    let mut vm = VM::new(&tx);
    let contract = vm.decode_output(&sample_output()).unwrap();
    let qty = match &contract.payload[1] {
        PortableItem::Value(v) => zkvm::types::Variable { index: v.qty.index },
        _ => panic!("expected a value item"),
    };
    // Reblinding between decode and encode shows up in the encoding.
    vm.variable_commitments.reblind(&qty, vec![0xaa; 32]).unwrap();
    let encoded = vm.encode_output(&contract);
    let mut expected = sample_output();
    expected[45..77].copy_from_slice(&[0xaa; 32]);
    assert_eq!(encoded, expected);
}

#[test]
fn oversized_count_is_rejected_before_allocation() {
    let mut out = vec![9u8; 32];
    out.extend_from_slice(&0xffff_ffffu32.to_le_bytes());
    out.push(0x00);
    let tx = tx_with(Vec::new());
    let mut vm = VM::new(&tx);
    assert_eq!(vm.decode_output(&out).map(|_| ()), Err(VMError::FormatError));
    assert_eq!(vm.variable_commitments.len(), 0);
}

#[test]
fn unknown_item_tag_is_rejected() {
    let mut out = vec![9u8; 32];
    out.extend_from_slice(&1u32.to_le_bytes());
    out.push(0x02);
    let tx = tx_with(Vec::new());
    let mut vm = VM::new(&tx);
    assert_eq!(vm.decode_output(&out).map(|_| ()), Err(VMError::FormatError));
}

#[test]
fn truncated_value_item_is_rejected() {
    let mut out = vec![9u8; 32];
    out.extend_from_slice(&1u32.to_le_bytes());
    out.push(0x01);
    out.extend_from_slice(&[5u8; 40]);
    let tx = tx_with(Vec::new());
    let mut vm = VM::new(&tx);
    assert_eq!(vm.decode_output(&out).map(|_| ()), Err(VMError::FormatError));
}

#[test]
fn input_instruction_spends_an_output() {
    let mut input_bytes = vec![0x11u8; 32];
    input_bytes.extend_from_slice(&sample_output());
    let mut program = push_op(&input_bytes);
    program.push(0x04);
    let tx = tx_with(program);
    let mut vm = VM::new(&tx);
    assert_eq!(vm.run(), Ok(()));
    assert!(vm.unique);
    assert_eq!(vm.stack.len(), 1);
    assert!(matches!(&vm.stack[0], Item::Contract(c) if c.payload.len() == 2));
    // The log carries the spent output's identifier, derived from the
    // previous txid and the output bytes.
    let expected = {
        let mut t = merlin::Transcript::new(b"ZkVM.utxo");
        t.append_message(b"txid", &[0x11u8; 32]);
        t.append_message(b"output", &sample_output());
        let mut buf = [0u8; 32];
        t.challenge_bytes(b"id", &mut buf);
        buf.to_vec()
    };
    assert!(matches!(&vm.txlog[0], LogEntry::Input(u) if u.0 == expected));
}

#[test]
fn input_with_short_data_is_rejected() {
    let mut program = push_op(&[0u8; 16]);
    program.push(0x04);
    let tx = tx_with(program);
    let mut vm = VM::new(&tx);
    assert_eq!(vm.run(), Err(VMError::FormatError));
}

#[test]
fn utxo_from_output_matches_reference() {
    let txid = TxID(vec![4u8; 32]);
    let output = vec![1u8, 2, 3];
    let utxo = UTXO::from_output(&output, &txid);
    let mut t = merlin::Transcript::new(b"ZkVM.utxo");
    t.append_message(b"txid", &[4u8; 32]);
    t.append_message(b"output", &[1, 2, 3]);
    let mut buf = [0u8; 32];
    t.challenge_bytes(b"id", &mut buf);
    assert_eq!(utxo.0, buf.to_vec());
}

#[test]
fn txid_hashes_canonical_log_encoding() {
    let log = vec![
        LogEntry::Nonce(zkvm::types::Predicate(vec![8u8; 32]), 77),
        LogEntry::Input(UTXO(vec![3u8; 32])),
    ];
    let txid = TxID::from_txlog(&log);
    // One transcript message per entry: 0x03 || predicate || LE64(77),
    // then 0x02 || utxo id.
    let mut nonce_entry = vec![0x03u8];
    nonce_entry.extend_from_slice(&[8u8; 32]);
    nonce_entry.extend_from_slice(&77u64.to_le_bytes());
    let mut input_entry = vec![0x02u8];
    input_entry.extend_from_slice(&[3u8; 32]);
    let mut t = merlin::Transcript::new(b"ZkVM.txid");
    t.append_message(b"entry", &nonce_entry);
    t.append_message(b"entry", &input_entry);
    let mut buf = [0u8; 32];
    t.challenge_bytes(b"id", &mut buf);
    assert_eq!(txid.0, buf.to_vec());
}

#[test]
fn output_size_matches_encoding_length() {
    let tx = tx_with(Vec::new());
    let mut vm = VM::new(&tx);
    let bytes = sample_output();
    let contract = vm.decode_output(&bytes).unwrap();
    assert_eq!(contract.output_size(), bytes.len());
    let empty = zkvm::types::Contract {
        payload: Vec::new(),
        predicate: zkvm::types::Predicate(vec![0u8; 32]),
    };
    assert_eq!(empty.output_size(), 36);
}
