//! End-to-end tests of the execution engine.

use zkvm::errors::VMError;
use zkvm::txlog::LogEntry;
use zkvm::types::Item;
use zkvm::vm::{Signature, Tx, VM};

fn empty_proof() -> bulletproofs::r1cs::R1CSProof {
    let pc_gens = bulletproofs::PedersenGens::default();
    let mut transcript = merlin::Transcript::new(b"ZkVM.r1cs");
    let prover = bulletproofs::r1cs::Prover::new(&pc_gens, &mut transcript);
    let bp_gens = bulletproofs::BulletproofGens::new(16, 1);
    prover.prove(&bp_gens).unwrap()
}

fn tx_with(version: u64, program: Vec<u8>) -> Tx {
    Tx {
        version,
        mintime: 0,
        maxtime: 5000,
        program,
        signature: Signature { bytes: vec![0u8; 64] },
        proof: empty_proof(),
    }
}

fn push_op(data: &[u8]) -> Vec<u8> {
    let mut out = vec![0x00];
    out.extend_from_slice(&(data.len() as u32).to_le_bytes());
    out.extend_from_slice(data);
    out
}

fn dup_op(i: u32) -> Vec<u8> {
    let mut out = vec![0x02];
    out.extend_from_slice(&i.to_le_bytes());
    out
}

fn roll_op(i: u32) -> Vec<u8> {
    let mut out = vec![0x03];
    out.extend_from_slice(&i.to_le_bytes());
    out
}

fn verify(version: u64, program: Vec<u8>) -> Result<zkvm::vm::VerifiedTx, VMError> {
    let tx = tx_with(version, program);
    let bp_gens = bulletproofs::BulletproofGens::new(16, 1);
    VM::verify_tx(&tx, &bp_gens)
}

#[test]
fn empty_program_is_not_unique() {
    assert!(matches!(verify(1, Vec::new()), Err(VMError::NotUniqueTxid)));
}

#[test]
fn push_drop_is_not_unique() {
    let mut program = push_op(&[1, 2, 3]);
    program.push(0x01);
    assert!(matches!(verify(1, program), Err(VMError::NotUniqueTxid)));
}

#[test]
fn drop_on_empty_stack_underflows() {
    assert!(matches!(verify(1, vec![0x01]), Err(VMError::StackUnderflow)));
}

#[test]
fn dup_beyond_depth_underflows() {
    let mut program = push_op(&[9]);
    program.extend_from_slice(&dup_op(5));
    assert!(matches!(verify(1, program), Err(VMError::StackUnderflow)));
}

#[test]
fn roll_beyond_depth_underflows() {
    assert!(matches!(verify(1, roll_op(0)), Err(VMError::StackUnderflow)));
}

#[test]
fn truncated_push_is_a_format_error() {
    assert!(matches!(verify(1, vec![0x00, 0x05, 0x00]), Err(VMError::FormatError)));
}

#[test]
fn nonce_program_leaves_contract_on_stack() {
    let mut program = push_op(&[7u8; 32]);
    program.push(0x05);
    assert!(matches!(verify(1, program), Err(VMError::StackNotClean)));
}

#[test]
fn nonce_logs_predicate_and_maxtime() {
    let mut program = push_op(&[7u8; 32]);
    program.push(0x05);
    let tx = tx_with(1, program);
    let mut vm = VM::new(&tx);
    assert_eq!(vm.run(), Ok(()));
    assert!(vm.unique);
    assert_eq!(vm.stack.len(), 1);
    assert!(matches!(&vm.stack[0], Item::Contract(c)
        if c.predicate.0 == vec![7u8; 32] && c.payload.is_empty()));
    assert_eq!(vm.txlog.len(), 1);
    assert!(matches!(&vm.txlog[0], LogEntry::Nonce(p, 5000) if p.0 == vec![7u8; 32]));
}

#[test]
fn nonce_requires_32_byte_predicate() {
    let mut program = push_op(&[7u8; 31]);
    program.push(0x05);
    assert!(matches!(verify(1, program), Err(VMError::FormatError)));
}

#[test]
fn drop_refuses_a_contract() {
    let mut program = push_op(&[7u8; 32]);
    program.push(0x05);
    program.push(0x01);
    assert!(matches!(verify(1, program), Err(VMError::TypeNotCopyable)));
}

#[test]
fn dup_refuses_a_contract() {
    let mut program = push_op(&[7u8; 32]);
    program.push(0x05);
    program.extend_from_slice(&dup_op(0));
    assert!(matches!(verify(1, program), Err(VMError::TypeNotCopyable)));
}

#[test]
fn dup_copies_data() {
    let mut program = push_op(&[1, 2]);
    program.extend_from_slice(&dup_op(0));
    let tx = tx_with(1, program);
    let mut vm = VM::new(&tx);
    assert_eq!(vm.run(), Ok(()));
    assert_eq!(vm.stack.len(), 2);
    assert!(matches!(&vm.stack[0], Item::Data(d) if d.bytes == vec![1, 2]));
    assert!(matches!(&vm.stack[1], Item::Data(d) if d.bytes == vec![1, 2]));
}

#[test]
fn roll_moves_an_item_to_the_top() {
    let mut program = push_op(&[1]);
    program.extend_from_slice(&push_op(&[2]));
    program.extend_from_slice(&roll_op(1));
    let tx = tx_with(1, program);
    let mut vm = VM::new(&tx);
    assert_eq!(vm.run(), Ok(()));
    assert_eq!(vm.stack.len(), 2);
    assert!(matches!(&vm.stack[0], Item::Data(d) if d.bytes == vec![2]));
    assert!(matches!(&vm.stack[1], Item::Data(d) if d.bytes == vec![1]));
}

#[test]
fn unknown_opcode_fails_current_version() {
    assert!(matches!(verify(1, vec![0xff]), Err(VMError::ExtensionsNotAllowed)));
}

#[test]
fn unknown_opcode_is_a_noop_in_future_version() {
    // The same opcode falls through to the uniqueness check: it
    // touched neither the stack nor the log.
    assert!(matches!(verify(2, vec![0xff]), Err(VMError::NotUniqueTxid)));
}

#[test]
fn unknown_opcode_leaves_state_untouched() {
    let tx = tx_with(2, vec![0xab]);
    let mut vm = VM::new(&tx);
    assert_eq!(vm.run(), Ok(()));
    assert_eq!(vm.stack.len(), 0);
    assert_eq!(vm.txlog.len(), 0);
    assert!(!vm.unique);
}

#[test]
fn rejected_opcode_leaves_state_untouched() {
    let tx = tx_with(1, vec![0xff]);
    let mut vm = VM::new(&tx);
    assert_eq!(vm.run(), Err(VMError::ExtensionsNotAllowed));
    assert_eq!(vm.stack.len(), 0);
    assert_eq!(vm.txlog.len(), 0);
    assert!(!vm.unique);
}

#[test]
fn failed_drop_consumes_only_its_argument() {
    // drop pops its argument before classifying it: the failed drop
    // leaves the contract consumed, and touches nothing else.
    let mut program = push_op(&[7u8; 32]);
    program.push(0x05);
    program.push(0x01);
    let tx = tx_with(1, program);
    let mut vm = VM::new(&tx);
    assert_eq!(vm.run(), Err(VMError::TypeNotCopyable));
    assert_eq!(vm.stack.len(), 0);
    assert_eq!(vm.txlog.len(), 1);
    assert!(vm.unique);
}
