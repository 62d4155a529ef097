//! A deterministic, stack-based virtual machine that validates
//! confidential-transaction programs.
//!
//! The crate is organised around five components:
//! - [`encoding`]: the binary codec for the transaction wire format;
//! - [`types`]: the typed value model of the operand stack;
//! - [`table`]: the variable commitment table;
//! - [`point_ops`]: the deferred point-operation queue;
//! - [`vm`]: the execution engine and its `verify_tx` entry point.
//!
//! [`ops`] defines the instruction encoding, [`txlog`] the
//! transaction log and the identifiers derived from it, [`crypto`]
//! the trusted boundary to the cryptographic collaborators, and
//! [`laws`] states and proves the engine's general properties.

pub mod crypto;
pub mod encoding;
pub mod errors;
pub mod laws;
pub mod ops;
pub mod point_ops;
pub mod table;
pub mod txlog;
pub mod types;
pub mod vm;
