//! The laws of the engine, each proved once and for all inputs:
//! the codec round trip, stack and copyability discipline, txid
//! uniqueness, and extension gating.

use vstd::prelude::*;

use crate::errors::VMError;
use crate::ops;
use crate::ops::Instruction;
use crate::table::{resolve_spec, table_wf, VarCommitV};
use crate::types::{is_copyable, ContractV, PortableItemV, ValueV};
use crate::vm::{
    contract_wf, decode_output_spec, drop_spec, dup_spec, enc_item_spec, enc_items_spec,
    encode_output_spec, init_vm_spec, input_spec, nonce_spec, parse_items_spec,
    parse_one_item_spec, payload_wf, roll_spec, run_spec, vm_run_outcome, VmV, CURRENT_VERSION,
    DATA_TYPE, VALUE_TYPE,
};

verus! {

// ---------------------------------------------------------------
// Round trip: decoding an encoded output reproduces the contract.
// ---------------------------------------------------------------

/// The detached table entries that decoding a payload appends: two
/// per value, its resolved quantity then flavor commitment.
pub open spec fn detached_of(payload: Seq<PortableItemV>, t1: Seq<VarCommitV>) -> Seq<VarCommitV>
    decreases payload.len(),
{
    if payload.len() == 0 {
        Seq::<VarCommitV>::empty()
    } else {
        match payload[0] {
            PortableItemV::Data(_) => detached_of(payload.drop_first(), t1),
            PortableItemV::Value(v) => seq![
                VarCommitV::Detached(resolve_spec(t1, v.qty)),
                VarCommitV::Detached(resolve_spec(t1, v.flv)),
            ] + detached_of(payload.drop_first(), t1),
        }
    }
}

/// The payload that decoding yields: the same data strings, and each
/// value's variables renumbered from `base` in decoding order.
pub open spec fn reindexed_of(payload: Seq<PortableItemV>, base: int) -> Seq<PortableItemV>
    decreases payload.len(),
{
    if payload.len() == 0 {
        Seq::<PortableItemV>::empty()
    } else {
        match payload[0] {
            PortableItemV::Data(d) => seq![PortableItemV::Data(d)] + reindexed_of(
                payload.drop_first(),
                base,
            ),
            PortableItemV::Value(_) => seq![
                PortableItemV::Value(ValueV { qty: base, flv: base + 1 }),
            ] + reindexed_of(payload.drop_first(), base + 2),
        }
    }
}

/// Parsing the encoding of a payload yields exactly its reindexed
/// form, consumes the whole buffer tail, and appends exactly the
/// resolved detached entries.
proof fn lemma_items_round_trip(
    payload: Seq<PortableItemV>,
    t1: Seq<VarCommitV>,
    bytes: Seq<u8>,
    pos: int,
    t2: Seq<VarCommitV>,
    acc: Seq<PortableItemV>,
)
    requires
        payload_wf(payload, t1.len() as int),
        table_wf(t1),
        0 <= pos <= bytes.len(),
        bytes.subrange(pos, bytes.len() as int) == enc_items_spec(payload, t1),
    ensures
        parse_items_spec(bytes, pos, payload.len(), t2, acc) == Some(
            (
                acc + reindexed_of(payload, t2.len() as int),
                bytes.len() as int,
                t2 + detached_of(payload, t1),
            ),
        ),
    decreases payload.len(),
{
    let sub = bytes.subrange(pos, bytes.len() as int);
    if payload.len() == 0 {
        assert(pos == bytes.len());
        assert(acc + reindexed_of(payload, t2.len() as int) =~= acc);
        assert(t2 + detached_of(payload, t1) =~= t2);
    } else {
        let head = payload[0];
        let rest = payload.drop_first();
        let e0 = enc_item_spec(head, t1);
        let erest = enc_items_spec(rest, t1);
        assert(sub == e0 + erest);
        assert(payload_wf(rest, t1.len() as int)) by {
            assert(forall|i: int| 0 <= i < rest.len() ==> rest[i] == #[trigger] payload[i + 1]);
        }
        match head {
            PortableItemV::Data(d) => {
                assert(d.len() < 0x1_0000_0000);
                let lenb = crate::encoding::u32_le_bytes(d.len() as u32);
                assert(e0 == seq![DATA_TYPE] + lenb + d);
                assert(e0.len() == 5 + d.len());
                assert(sub[0] == bytes[pos]);
                assert(sub[0] == e0[0]);
                assert(e0[0] == DATA_TYPE);
                assert forall|j: int| 0 <= j < 4 implies bytes.subrange(pos + 1, pos + 5)[j]
                    == lenb[j] by {
                    assert(bytes.subrange(pos + 1, pos + 5)[j] == bytes[pos + 1 + j]);
                    assert(sub[1 + j] == bytes[pos + 1 + j]);
                    assert(sub[1 + j] == e0[1 + j]);
                    assert(e0[1 + j] == lenb[j]);
                }
                assert(bytes.subrange(pos + 1, pos + 5) =~= lenb);
                crate::encoding::lemma_u32_le_round_trip(d.len() as u32);
                assert(crate::encoding::le32_val(bytes.subrange(pos + 1, pos + 5))
                    == d.len() as int);
                assert(pos + 5 + d.len() <= bytes.len());
                assert forall|j: int| 0 <= j < d.len() implies bytes.subrange(
                    pos + 5,
                    pos + 5 + d.len(),
                )[j] == d[j] by {
                    assert(bytes.subrange(pos + 5, pos + 5 + d.len())[j] == bytes[pos + 5 + j]);
                    assert(sub[5 + j] == bytes[pos + 5 + j]);
                    assert(sub[5 + j] == e0[5 + j]);
                    assert(e0[5 + j] == d[j]);
                }
                assert(bytes.subrange(pos + 5, pos + 5 + d.len()) =~= d);
                let pos2 = pos + 5 + d.len() as int;
                assert(parse_one_item_spec(bytes, pos, t2) == Some(
                    (PortableItemV::Data(d), pos2, t2),
                ));
                assert forall|j: int| 0 <= j < erest.len() implies bytes.subrange(
                    pos2,
                    bytes.len() as int,
                )[j] == erest[j] by {
                    assert(bytes.subrange(pos2, bytes.len() as int)[j] == bytes[pos2 + j]);
                    assert(sub[e0.len() + j] == bytes[pos2 + j]);
                    assert(sub[e0.len() + j] == erest[j]);
                }
                assert(bytes.subrange(pos2, bytes.len() as int) =~= erest);
                lemma_items_round_trip(rest, t1, bytes, pos2, t2, acc.push(
                    PortableItemV::Data(d),
                ));
                assert(acc.push(PortableItemV::Data(d)) + reindexed_of(rest, t2.len() as int)
                    =~= acc + reindexed_of(payload, t2.len() as int));
                assert((payload.len() - 1) as nat == rest.len());
                assert(detached_of(payload, t1) == detached_of(rest, t1));
            },
            PortableItemV::Value(v) => {
                let q = resolve_spec(t1, v.qty);
                let f = resolve_spec(t1, v.flv);
                assert(q.len() == 32 && f.len() == 32);
                assert(e0 == seq![VALUE_TYPE] + q + f);
                assert(e0.len() == 65);
                assert(sub[0] == bytes[pos]);
                assert(sub[0] == e0[0]);
                assert(e0[0] == VALUE_TYPE);
                assert(pos + 65 <= bytes.len());
                assert forall|j: int| 0 <= j < 32 implies bytes.subrange(pos + 1, pos + 33)[j]
                    == q[j] && bytes.subrange(pos + 33, pos + 65)[j] == f[j] by {
                    assert(bytes.subrange(pos + 1, pos + 33)[j] == bytes[pos + 1 + j]);
                    assert(sub[1 + j] == bytes[pos + 1 + j]);
                    assert(sub[1 + j] == e0[1 + j]);
                    assert(e0[1 + j] == q[j]);
                    assert(bytes.subrange(pos + 33, pos + 65)[j] == bytes[pos + 33 + j]);
                    assert(sub[33 + j] == bytes[pos + 33 + j]);
                    assert(sub[33 + j] == e0[33 + j]);
                    assert(e0[33 + j] == f[j]);
                }
                assert(bytes.subrange(pos + 1, pos + 33) =~= q);
                assert(bytes.subrange(pos + 33, pos + 65) =~= f);
                let pos2 = pos + 65;
                let t2p = t2.push(VarCommitV::Detached(q)).push(VarCommitV::Detached(f));
                let item = PortableItemV::Value(
                    ValueV { qty: t2.len() as int, flv: t2.len() as int + 1 },
                );
                assert(parse_one_item_spec(bytes, pos, t2) == Some((item, pos2, t2p)));
                assert forall|j: int| 0 <= j < erest.len() implies bytes.subrange(
                    pos2,
                    bytes.len() as int,
                )[j] == erest[j] by {
                    assert(bytes.subrange(pos2, bytes.len() as int)[j] == bytes[pos2 + j]);
                    assert(sub[65 + j] == bytes[pos2 + j]);
                    assert(sub[65 + j] == erest[j]);
                }
                assert(bytes.subrange(pos2, bytes.len() as int) =~= erest);
                lemma_items_round_trip(rest, t1, bytes, pos2, t2p, acc.push(item));
                assert(acc.push(item) + reindexed_of(rest, t2p.len() as int) =~= acc
                    + reindexed_of(payload, t2.len() as int));
                assert(t2p + detached_of(rest, t1) =~= t2 + detached_of(payload, t1));
                assert((payload.len() - 1) as nat == rest.len());
            },
        }
    }
}

/// Round trip: decoding an encoded contract reproduces its predicate
/// and payload, with each value renumbered to fresh variables in
/// decoding order and its resolved commitments carried over as
/// detached entries of the decoder's table.
pub proof fn lemma_output_round_trip(c: ContractV, t1: Seq<VarCommitV>, t2: Seq<VarCommitV>)
    requires
        contract_wf(c, t1.len() as int),
        table_wf(t1),
    ensures
        decode_output_spec(encode_output_spec(c, t1), t2) == Some(
            (
                ContractV {
                    payload: reindexed_of(c.payload, t2.len() as int),
                    predicate: c.predicate,
                },
                t2 + detached_of(c.payload, t1),
            ),
        ),
{
    let bytes = encode_output_spec(c, t1);
    let countb = crate::encoding::u32_le_bytes(c.payload.len() as u32);
    assert(bytes == c.predicate + countb + enc_items_spec(c.payload, t1));
    assert(bytes.len() >= 36);
    assert(bytes.subrange(0, 32) =~= c.predicate);
    assert(bytes.subrange(32, 36) =~= countb);
    crate::encoding::lemma_u32_le_round_trip(c.payload.len() as u32);
    assert(crate::encoding::le32_val(bytes.subrange(32, 36)) == c.payload.len() as int);
    assert(bytes.subrange(36, bytes.len() as int) =~= enc_items_spec(c.payload, t1));
    lemma_items_round_trip(c.payload, t1, bytes, 36, t2, Seq::<PortableItemV>::empty());
    assert(Seq::<PortableItemV>::empty() + reindexed_of(c.payload, t2.len() as int)
        =~= reindexed_of(c.payload, t2.len() as int));
}

/// Each decoded payload item matches its original: a data string is
/// unchanged, and a value's fresh variables resolve, in the decoder's
/// extended table, to exactly the commitments the original's
/// variables resolved to.
pub proof fn lemma_reindexed_resolves(
    payload: Seq<PortableItemV>,
    t1: Seq<VarCommitV>,
    t2: Seq<VarCommitV>,
)
    requires
        payload_wf(payload, t1.len() as int),
        table_wf(t1),
    ensures
        reindexed_of(payload, t2.len() as int).len() == payload.len(),
        forall|i: int|
            0 <= i < payload.len() ==> match (
                #[trigger] payload[i],
                reindexed_of(payload, t2.len() as int)[i],
            ) {
                (PortableItemV::Data(d), PortableItemV::Data(d2)) => d2 == d,
                (PortableItemV::Value(v), PortableItemV::Value(v2)) => resolve_spec(
                    t2 + detached_of(payload, t1),
                    v2.qty,
                ) == resolve_spec(t1, v.qty) && resolve_spec(t2 + detached_of(payload, t1), v2.flv)
                    == resolve_spec(t1, v.flv),
                _ => false,
            },
    decreases payload.len(),
{
    if payload.len() > 0 {
        let head = payload[0];
        let rest = payload.drop_first();
        assert(payload_wf(rest, t1.len() as int)) by {
            assert(forall|i: int| 0 <= i < rest.len() ==> rest[i] == #[trigger] payload[i + 1]);
        }
        let dec = reindexed_of(payload, t2.len() as int);
        let tfin = t2 + detached_of(payload, t1);
        match head {
            PortableItemV::Data(_) => {
                lemma_reindexed_resolves(rest, t1, t2);
                let decr = reindexed_of(rest, t2.len() as int);
                assert(forall|i: int| 0 <= i < decr.len() ==> dec[i + 1] == #[trigger] decr[i]);
                assert(forall|i: int| 0 <= i < rest.len() ==> rest[i] == #[trigger] payload[i + 1]);
                assert(tfin == t2 + detached_of(rest, t1));
            },
            PortableItemV::Value(v) => {
                let q = resolve_spec(t1, v.qty);
                let f = resolve_spec(t1, v.flv);
                let t2p = t2.push(VarCommitV::Detached(q)).push(VarCommitV::Detached(f));
                lemma_reindexed_resolves(rest, t1, t2p);
                let decr = reindexed_of(rest, t2p.len() as int);
                assert(dec == seq![
                    PortableItemV::Value(ValueV { qty: t2.len() as int, flv: t2.len() as int + 1 }),
                ] + decr);
                assert(forall|i: int| 0 <= i < decr.len() ==> dec[i + 1] == #[trigger] decr[i]);
                assert(forall|i: int| 0 <= i < rest.len() ==> rest[i] == #[trigger] payload[i + 1]);
                assert(tfin =~= t2p + detached_of(rest, t1));
                assert(tfin[t2.len() as int] == VarCommitV::Detached(q));
                assert(tfin[t2.len() as int + 1] == VarCommitV::Detached(f));
            },
        }
    }
}

// ---------------------------------------------------------------
// Stack discipline.
// ---------------------------------------------------------------

/// A run that completes with items still on the stack is rejected as
/// not clean, whatever those items are.
pub proof fn lemma_stack_not_clean(version: u64, maxtime: u64, prog: Seq<u8>)
    requires
        run_spec(init_vm_spec(version, maxtime, prog)) is Ok,
        run_spec(init_vm_spec(version, maxtime, prog)).unwrap().stack.len() > 0,
    ensures
        vm_run_outcome(version, maxtime, prog) == Err::<VmV, VMError>(VMError::StackNotClean),
{
}

/// `dup`, `roll` and `drop` with a depth at or beyond the stack's
/// length underflow, for every index and every stack.
pub proof fn lemma_stack_underflow(s: VmV, i: int)
    ensures
        i >= s.stack.len() ==> dup_spec(s, i) == Err::<VmV, VMError>(VMError::StackUnderflow),
        i >= s.stack.len() ==> roll_spec(s, i) == Err::<VmV, VMError>(VMError::StackUnderflow),
        s.stack.len() == 0 ==> drop_spec(s) == Err::<VmV, VMError>(VMError::StackUnderflow),
        s.stack.len() == 0 ==> nonce_spec(s) == Err::<VmV, VMError>(VMError::StackUnderflow),
        s.stack.len() == 0 ==> input_spec(s) == Err::<VmV, VMError>(VMError::StackUnderflow),
{
}

// ---------------------------------------------------------------
// Copyability.
// ---------------------------------------------------------------

/// An item is copyable exactly when it is a data string, a variable,
/// an expression or a constraint; `dup` duplicates a copyable item
/// unchanged and rejects a linear one, and `drop` behaves likewise on
/// the top item.
pub proof fn lemma_copyability(s: VmV, i: int)
    requires
        0 <= i < s.stack.len(),
    ensures
        ({
            let item = s.stack[s.stack.len() - i - 1];
            &&& is_copyable(item) <==> (item is Data || item is Variable || item is Expression
                || item is Constraint)
            &&& !is_copyable(item) <==> (item is Contract || item is Value || item is WideValue)
            &&& is_copyable(item) ==> dup_spec(s, i) == Ok::<VmV, VMError>(
                (VmV { stack: s.stack.push(item), ..s }),
            )
            &&& !is_copyable(item) ==> dup_spec(s, i) == Err::<VmV, VMError>(
                VMError::TypeNotCopyable,
            )
            &&& i == 0 && is_copyable(item) ==> drop_spec(s) == Ok::<VmV, VMError>(
                (VmV { stack: s.stack.drop_last(), ..s }),
            )
            &&& i == 0 && !is_copyable(item) ==> drop_spec(s) == Err::<VmV, VMError>(
                VMError::TypeNotCopyable,
            )
        }),
{
}

// ---------------------------------------------------------------
// Uniqueness.
// ---------------------------------------------------------------

/// A run over a program with no `input` and no `nonce` ahead of the
/// cursor never changes the uniqueness flag.
pub proof fn lemma_unique_needs_instruction(s: VmV)
    requires
        0 <= s.offset <= s.prog.len(),
        !ops::contains_unique_instr(s.prog, s.offset),
        run_spec(s) is Ok,
    ensures
        run_spec(s).unwrap().unique == s.unique,
    decreases s.prog.len() - s.offset,
{
    if s.offset < s.prog.len() {
        match ops::parse_spec(s.prog, s.offset) {
            None => {},
            Some((instr, n)) => {
                ops::lemma_parse_spec_bounds(s.prog, s.offset);
                let s1 = VmV { offset: s.offset + n, ..s };
                match crate::vm::instr_spec(instr, s1) {
                    Ok(s2) => {
                        crate::vm::lemma_instr_spec_frame(instr, s1);
                        assert(!(instr is Input) && !(instr is Nonce));
                        assert(s2.unique == s.unique);
                        assert(!ops::contains_unique_instr(s.prog, s.offset + n));
                        lemma_unique_needs_instruction(s2);
                    },
                    Err(_) => {},
                }
            },
        }
    }
}

/// Any program containing no `input` and no `nonce` instruction that
/// runs to completion with an empty stack is rejected for want of a
/// unique transaction id.
pub proof fn lemma_not_unique_txid(version: u64, maxtime: u64, prog: Seq<u8>)
    requires
        !ops::contains_unique_instr(prog, 0),
        run_spec(init_vm_spec(version, maxtime, prog)) is Ok,
        run_spec(init_vm_spec(version, maxtime, prog)).unwrap().stack.len() == 0,
    ensures
        vm_run_outcome(version, maxtime, prog) == Err::<VmV, VMError>(VMError::NotUniqueTxid),
{
    lemma_unique_needs_instruction(init_vm_spec(version, maxtime, prog));
}

// ---------------------------------------------------------------
// Extension gating.
// ---------------------------------------------------------------

/// An unassigned opcode at the cursor fails the whole run when
/// extensions are not permitted, and is a no-op — the state unchanged
/// but for the cursor — when they are.
pub proof fn lemma_extension_gating(s: VmV, op: u8, n: int)
    requires
        0 <= s.offset < s.prog.len(),
        ops::parse_spec(s.prog, s.offset) == Some((Instruction::Ext(op), n)),
    ensures
        !s.extension ==> run_spec(s) == Err::<VmV, VMError>(VMError::ExtensionsNotAllowed),
        s.extension ==> run_spec(s) == run_spec(VmV { offset: s.offset + n, ..s }),
{
    ops::lemma_parse_spec_bounds(s.prog, s.offset);
}

/// The declared version decides: a transaction at or below the
/// current version is refused on its first unassigned opcode, a
/// transaction declaring a later version runs past it with no other
/// effect.
pub proof fn lemma_extension_gating_by_version(
    version: u64,
    maxtime: u64,
    prog: Seq<u8>,
    op: u8,
    n: int,
)
    requires
        ops::parse_spec(prog, 0) == Some((Instruction::Ext(op), n)),
        0 < prog.len(),
    ensures
        version <= CURRENT_VERSION ==> run_spec(init_vm_spec(version, maxtime, prog)) == Err::<
            VmV,
            VMError,
        >(VMError::ExtensionsNotAllowed),
        version > CURRENT_VERSION ==> run_spec(init_vm_spec(version, maxtime, prog)) == run_spec(
            VmV { offset: n, ..init_vm_spec(version, maxtime, prog) },
        ),
{
    lemma_extension_gating(init_vm_spec(version, maxtime, prog), op, n);
}

} // verus!
