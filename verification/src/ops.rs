//! The instruction set and its byte encoding.
//!
//! Each instruction is one opcode byte, followed by its immediate
//! arguments:
//!
//! - `0x00` `push`: `LE32(len)`, then `len` bytes of inline data;
//! - `0x01` `drop`;
//! - `0x02` `dup`: `LE32(i)`, the stack depth to copy from;
//! - `0x03` `roll`: `LE32(i)`, the stack depth to move from;
//! - `0x04` `input`;
//! - `0x05` `nonce`;
//! - any other opcode is an extension instruction `ext(opcode)`.
//!
//! Opcodes beyond this set — the value-flow instructions such as
//! `issue`, `output` and `cloak` among them — are extension points of
//! this engine: they are permitted as no-ops exactly when the
//! transaction declares a version above the engine's current one.
//!
//! Parsing fails only on a truncated immediate; there is no backward
//! jump, so one pass over the program bounds the total step count.

use vstd::prelude::*;

use crate::encoding::le32_val;

verus! {

/// The opcode of `push`.
pub const OP_PUSH: u8 = 0x00;

/// The opcode of `drop`.
pub const OP_DROP: u8 = 0x01;

/// The opcode of `dup`.
pub const OP_DUP: u8 = 0x02;

/// The opcode of `roll`.
pub const OP_ROLL: u8 = 0x03;

/// The opcode of `input`.
pub const OP_INPUT: u8 = 0x04;

/// The opcode of `nonce`.
pub const OP_NONCE: u8 = 0x05;

/// One decoded instruction.
#[derive(Clone, Copy, Debug, PartialEq, Eq, Structural)]
pub enum Instruction {
    /// Pushes `len` inline bytes as an opaque data string.
    Push(usize),
    /// Drops a copyable item.
    Drop,
    /// Copies the item at the given depth (0 is the top).
    Dup(usize),
    /// Moves the item at the given depth to the top.
    Roll(usize),
    /// Spends a previous output: decodes a serialized input into a
    /// contract and records its identifier.
    Input,
    /// Anchors the transaction to a single-use predicate.
    Nonce,
    /// An unassigned opcode: a no-op only for transactions declaring
    /// a version above the engine's current one.
    Ext(u8),
}

/// Decodes the instruction at `off`, together with its full encoded
/// size (opcode, immediates and inline data). `None` on a truncated
/// immediate. A decoded instruction always has size at least 1 and
/// ends within the program.
pub open spec fn parse_spec(prog: Seq<u8>, off: int) -> Option<(Instruction, int)>
    recommends
        0 <= off < prog.len(),
{
    let op = prog[off];
    if op == OP_PUSH {
        if off + 5 <= prog.len() {
            let len = le32_val(prog.subrange(off + 1, off + 5));
            if off + 5 + len <= prog.len() {
                Some((Instruction::Push(len as usize), 5 + len))
            } else {
                None
            }
        } else {
            None
        }
    } else if op == OP_DROP {
        Some((Instruction::Drop, 1))
    } else if op == OP_DUP {
        if off + 5 <= prog.len() {
            Some((Instruction::Dup(le32_val(prog.subrange(off + 1, off + 5)) as usize), 5))
        } else {
            None
        }
    } else if op == OP_ROLL {
        if off + 5 <= prog.len() {
            Some((Instruction::Roll(le32_val(prog.subrange(off + 1, off + 5)) as usize), 5))
        } else {
            None
        }
    } else if op == OP_INPUT {
        Some((Instruction::Input, 1))
    } else if op == OP_NONCE {
        Some((Instruction::Nonce, 1))
    } else {
        Some((Instruction::Ext(op), 1))
    }
}

/// A decoded instruction occupies at least one byte and ends within
/// the program.
pub proof fn lemma_parse_spec_bounds(prog: Seq<u8>, off: int)
    requires
        0 <= off < prog.len(),
        parse_spec(prog, off) is Some,
    ensures
        1 <= parse_spec(prog, off).unwrap().1,
        off + parse_spec(prog, off).unwrap().1 <= prog.len(),
        parse_spec(prog, off).unwrap().0 matches Instruction::Push(len) ==> len < 0x1_0000_0000,
{
    let op = prog[off];
    if op == OP_PUSH {
        crate::encoding::lemma_le32_val_bounds(prog.subrange(off + 1, off + 5));
    }
}


/// Whether the program, parsed from `off`, contains an `input` or
/// `nonce` instruction before its end or its first malformed
/// instruction.
pub open spec fn contains_unique_instr(prog: Seq<u8>, off: int) -> bool
    decreases prog.len() - off,
    when 0 <= off <= prog.len()
{
    if off == prog.len() {
        false
    } else {
        match parse_spec(prog, off) {
            None => false,
            Some((instr, n)) => instr is Input || instr is Nonce || contains_unique_instr(
                prog,
                off + n,
            ),
        }
    }
}

/// Reads the instruction at `off` and returns it with its encoded
/// size.
pub fn parse(prog: &Vec<u8>, off: usize) -> (r: Option<(Instruction, usize)>)
    requires
        off < prog@.len(),
    ensures
        match parse_spec(prog@, off as int) {
            Some((instr, size)) => r matches Some(p) && p.0 == instr && p.1 == size,
            None => r is None,
        },
{
    let l: usize = prog.len();
    assert(off < l);
    let op = prog[off];
    if op == OP_PUSH {
        match crate::encoding::read_usize(prog, off + 1) {
            Ok((len, _)) => {
                if crate::encoding::has_bytes(prog, off + 5, len) {
                    Some((Instruction::Push(len), 5 + len))
                } else {
                    None
                }
            },
            Err(_) => None,
        }
    } else if op == OP_DROP {
        Some((Instruction::Drop, 1))
    } else if op == OP_DUP {
        match crate::encoding::read_usize(prog, off + 1) {
            Ok((i, _)) => Some((Instruction::Dup(i), 5)),
            Err(_) => None,
        }
    } else if op == OP_ROLL {
        match crate::encoding::read_usize(prog, off + 1) {
            Ok((i, _)) => Some((Instruction::Roll(i), 5)),
            Err(_) => None,
        }
    } else if op == OP_INPUT {
        Some((Instruction::Input, 1))
    } else if op == OP_NONCE {
        Some((Instruction::Nonce, 1))
    } else {
        Some((Instruction::Ext(op), 1))
    }
}

} // verus!
