//! The execution engine: program runs, instruction dispatch, the
//! transaction log, and the `verify_tx` entry point.

use vstd::prelude::*;

use crate::crypto;
use crate::encoding;
use crate::encoding::{le32_val, u32_le_bytes};
use crate::errors::VMError;
use crate::ops;
use crate::ops::Instruction;
use crate::point_ops;
use crate::point_ops::PointOp;
use crate::table::{resolve_spec, table_wf, CommitmentTable, VarCommitV};
use crate::txlog::{log_encodings, log_wf, LogEntry, LogV, TxID, UTXO};
use crate::types::{
    is_copyable, Contract, ContractV, Data, Item, ItemV, PortableItem, PortableItemV, Predicate,
    ValueV,
};

verus! {

/// The current transaction version: programs declaring a higher
/// version may treat unassigned opcodes as no-ops.
pub const CURRENT_VERSION: u64 = 1;

/// Tag for a data item in the output wire format.
pub const DATA_TYPE: u8 = 0x00;

/// Tag for a value item in the output wire format.
pub const VALUE_TYPE: u8 = 0x01;

/// An aggregated signature over the transaction id, carried opaquely
/// at this boundary. No instruction of this engine's set collects
/// signing keys, so the engine itself never evaluates it.
pub struct Signature {
    pub bytes: Vec<u8>,
}

/// A transaction with all data needed to validate it.
pub struct Tx {
    /// Version of the transaction.
    pub version: u64,
    /// Timestamp before which the transaction is invalid (seconds).
    pub mintime: u64,
    /// Timestamp after which the transaction is invalid (seconds).
    pub maxtime: u64,
    /// The program to execute.
    pub program: Vec<u8>,
    /// Aggregated signature of the transaction id.
    pub signature: Signature,
    /// Constraint system proof for all the constraints.
    pub proof: bulletproofs::r1cs::R1CSProof,
}

/// A verified transaction: its unique identifier.
pub struct VerifiedTx {
    /// Transaction id.
    pub txid: TxID,
}

/// The state of running a single program string.
pub struct Run {
    pub program: Vec<u8>,
    pub offset: usize,
}

/// The engine state used to validate one transaction.
pub struct VM {
    pub version: u64,
    pub mintime: u64,
    pub maxtime: u64,
    // True when the tx version is in the future and unassigned
    // opcodes are treated as no-ops.
    pub extension: bool,
    // Set by `input` and `nonce`, which guarantee a unique txid.
    pub unique: bool,
    pub stack: Vec<Item>,
    pub current_run: Run,
    pub run_stack: Vec<Run>,
    pub txlog: Vec<LogEntry>,
    pub signtx_keys: Vec<Vec<u8>>,
    pub deferred_operations: Vec<PointOp>,
    pub variable_commitments: CommitmentTable,
}

/// Mathematical model of the mutable engine state.
#[verifier::ext_equal]
pub struct VmV {
    pub prog: Seq<u8>,
    pub offset: int,
    pub stack: Seq<ItemV>,
    pub unique: bool,
    pub txlog: Seq<LogV>,
    pub table: Seq<VarCommitV>,
    pub keys: Seq<Seq<u8>>,
    pub deferred: Seq<Seq<(Seq<u8>, Seq<u8>)>>,
    pub extension: bool,
    pub maxtime: u64,
}

/// Whether a stack cell is well-formed: a data string fits the wire
/// format's 32-bit length prefix. Data reaches the stack only from
/// `push`, whose length is a 32-bit immediate.
pub open spec fn stack_item_wf(item: ItemV) -> bool {
    match item {
        ItemV::Data(d) => d.len() < 0x1_0000_0000,
        _ => true,
    }
}

/// Whether every cell of the stack is well-formed.
pub open spec fn stack_wf(stack: Seq<ItemV>) -> bool {
    forall|i: int| 0 <= i < stack.len() ==> stack_item_wf(#[trigger] stack[i])
}

/// Pushing a well-formed cell preserves stack well-formedness.
pub proof fn lemma_stack_wf_push(stack: Seq<ItemV>, item: ItemV)
    requires
        stack_wf(stack),
        stack_item_wf(item),
    ensures
        stack_wf(stack.push(item)),
{
    assert forall|i: int|
        0 <= i < stack.push(item).len() implies stack_item_wf(
        #[trigger] stack.push(item)[i],
    ) by {
        if i < stack.len() {
            assert(stack.push(item)[i] == stack[i]);
        }
    }
}

/// Removing the top cell preserves stack well-formedness.
pub proof fn lemma_stack_wf_drop_last(stack: Seq<ItemV>)
    requires
        stack_wf(stack),
        stack.len() > 0,
    ensures
        stack_wf(stack.drop_last()),
{
    assert forall|i: int|
        0 <= i < stack.drop_last().len() implies stack_item_wf(
        #[trigger] stack.drop_last()[i],
    ) by {
        assert(stack.drop_last()[i] == stack[i]);
    }
}

/// Removing any cell preserves stack well-formedness.
pub proof fn lemma_stack_wf_remove(stack: Seq<ItemV>, idx: int)
    requires
        stack_wf(stack),
        0 <= idx < stack.len(),
    ensures
        stack_wf(stack.remove(idx)),
{
    assert forall|i: int|
        0 <= i < stack.remove(idx).len() implies stack_item_wf(
        #[trigger] stack.remove(idx)[i],
    ) by {
        if i < idx {
            assert(stack.remove(idx)[i] == stack[i]);
        } else {
            assert(stack.remove(idx)[i] == stack[i + 1]);
        }
    }
}

/// Well-formedness of a model state: the cursor is within the
/// program, and every stack cell, log entry, table entry and
/// deferred operation is encodable.
pub open spec fn vm_wf(s: VmV) -> bool {
    &&& 0 <= s.offset <= s.prog.len()
    &&& stack_wf(s.stack)
    &&& log_wf(s.txlog)
    &&& table_wf(s.table)
    &&& point_ops::ops_wf(s.deferred)
}

/// The engine state at the start of a program.
pub open spec fn init_vm_spec(version: u64, maxtime: u64, prog: Seq<u8>) -> VmV {
    VmV {
        prog,
        offset: 0,
        stack: Seq::empty(),
        unique: false,
        txlog: Seq::empty(),
        table: Seq::empty(),
        keys: Seq::empty(),
        deferred: Seq::empty(),
        extension: version > CURRENT_VERSION,
        maxtime,
    }
}

impl VM {
    /// The mathematical model of this engine state.
    pub open spec fn model(self) -> VmV {
        VmV {
            prog: self.current_run.program@,
            offset: self.current_run.offset as int,
            stack: self.stack@.map_values(|it: Item| it@),
            unique: self.unique,
            txlog: self.txlog@.map_values(|e: LogEntry| e@),
            table: self.variable_commitments@,
            keys: self.signtx_keys@.map_values(|k: Vec<u8>| k@),
            deferred: self.deferred_operations@.map_values(|op: PointOp| op@),
            extension: self.extension,
            maxtime: self.maxtime,
        }
    }

    /// Well-formedness of the engine: a well-formed model and no
    /// suspended runs (no instruction of this set pushes one).
    pub open spec fn wf(self) -> bool {
        vm_wf(self.model()) && self.run_stack@.len() == 0
    }
}

// ---------------------------------------------------------------
// The output wire format:
//   Output    = Predicate(32) || LE32(k) || Item_0 || ... || Item_{k-1}
//   Item      = 0x00 || LE32(len) || bytes
//             | 0x01 || QtyPoint(32) || FlvPoint(32)
// An input is a 32-byte previous txid followed by an output.
// ---------------------------------------------------------------

/// Parses one payload item at `pos`; a value registers its two
/// commitments as fresh detached table entries, quantity first.
pub open spec fn parse_one_item_spec(bytes: Seq<u8>, pos: int, table: Seq<VarCommitV>) -> Option<
    (PortableItemV, int, Seq<VarCommitV>),
> {
    if 0 <= pos < bytes.len() {
        let tag = bytes[pos];
        if tag == DATA_TYPE {
            if pos + 5 <= bytes.len() {
                let len = le32_val(bytes.subrange(pos + 1, pos + 5));
                if pos + 5 + len <= bytes.len() {
                    Some(
                        (
                            PortableItemV::Data(bytes.subrange(pos + 5, pos + 5 + len)),
                            pos + 5 + len,
                            table,
                        ),
                    )
                } else {
                    None
                }
            } else {
                None
            }
        } else if tag == VALUE_TYPE {
            if pos + 65 <= bytes.len() {
                Some(
                    (
                        PortableItemV::Value(
                            ValueV { qty: table.len() as int, flv: table.len() as int + 1 },
                        ),
                        pos + 65,
                        table.push(
                            VarCommitV::Detached(bytes.subrange(pos + 1, pos + 33)),
                        ).push(VarCommitV::Detached(bytes.subrange(pos + 33, pos + 65))),
                    ),
                )
            } else {
                None
            }
        } else {
            None
        }
    } else {
        None
    }
}

/// Parses `k` payload items starting at `pos`, threading the table.
pub open spec fn parse_items_spec(
    bytes: Seq<u8>,
    pos: int,
    k: nat,
    table: Seq<VarCommitV>,
    acc: Seq<PortableItemV>,
) -> Option<(Seq<PortableItemV>, int, Seq<VarCommitV>)>
    decreases k,
{
    if k == 0 {
        Some((acc, pos, table))
    } else {
        match parse_one_item_spec(bytes, pos, table) {
            None => None,
            Some((item, pos2, table2)) => parse_items_spec(
                bytes,
                pos2,
                (k - 1) as nat,
                table2,
                acc.push(item),
            ),
        }
    }
}

/// Parses an output into a contract model and the table extended by
/// the payload's value commitments. Trailing bytes are ignored.
pub open spec fn decode_output_spec(bytes: Seq<u8>, table: Seq<VarCommitV>) -> Option<
    (ContractV, Seq<VarCommitV>),
> {
    if bytes.len() >= 36 {
        let pred = bytes.subrange(0, 32);
        let k = le32_val(bytes.subrange(32, 36));
        match parse_items_spec(bytes, 36, k as nat, table, Seq::empty()) {
            None => None,
            Some((payload, _, table2)) => Some((ContractV { payload, predicate: pred }, table2)),
        }
    } else {
        None
    }
}

/// Parses an input: a 32-byte previous txid followed by the previous
/// output.
pub open spec fn decode_input_spec(bytes: Seq<u8>, table: Seq<VarCommitV>) -> Option<
    (ContractV, Seq<u8>, Seq<u8>, Seq<VarCommitV>),
> {
    if bytes.len() >= 32 {
        let txid = bytes.subrange(0, 32);
        let output = bytes.subrange(32, bytes.len() as int);
        match decode_output_spec(output, table) {
            None => None,
            Some((c, table2)) => Some((c, txid, output, table2)),
        }
    } else {
        None
    }
}

/// Parsing an item consumes at least one byte and stays within the
/// buffer.
pub proof fn lemma_parse_one_item_bounds(bytes: Seq<u8>, pos: int, table: Seq<VarCommitV>)
    requires
        parse_one_item_spec(bytes, pos, table) is Some,
    ensures
        parse_one_item_spec(bytes, pos, table).unwrap().1 >= pos + 1,
        parse_one_item_spec(bytes, pos, table).unwrap().1 <= bytes.len(),
{
    if 0 <= pos < bytes.len() && bytes[pos] == DATA_TYPE && pos + 5 <= bytes.len() {
        crate::encoding::lemma_le32_val_bounds(bytes.subrange(pos + 1, pos + 5));
    }
}

/// A declared count larger than the remaining bytes can never parse:
/// each item consumes at least one byte.
pub proof fn lemma_parse_items_needs_bytes(
    bytes: Seq<u8>,
    pos: int,
    k: nat,
    table: Seq<VarCommitV>,
    acc: Seq<PortableItemV>,
)
    requires
        parse_items_spec(bytes, pos, k, table, acc) is Some,
    ensures
        parse_items_spec(bytes, pos, k, table, acc).unwrap().1 >= pos + k,
        k > 0 ==> parse_items_spec(bytes, pos, k, table, acc).unwrap().1 <= bytes.len(),
    decreases k,
{
    if k > 0 {
        let (item, pos2, table2) = parse_one_item_spec(bytes, pos, table).unwrap();
        lemma_parse_one_item_bounds(bytes, pos, table);
        lemma_parse_items_needs_bytes(bytes, pos2, (k - 1) as nat, table2, acc.push(item));
    }
}

/// The byte encoding of one payload item, with each value's
/// commitments resolved from the table at encoding time.
pub open spec fn enc_item_spec(item: PortableItemV, table: Seq<VarCommitV>) -> Seq<u8> {
    match item {
        PortableItemV::Data(d) => seq![DATA_TYPE] + u32_le_bytes(d.len() as u32) + d,
        PortableItemV::Value(v) => seq![VALUE_TYPE] + resolve_spec(table, v.qty) + resolve_spec(
            table,
            v.flv,
        ),
    }
}

/// The byte encoding of a payload, in order.
pub open spec fn enc_items_spec(payload: Seq<PortableItemV>, table: Seq<VarCommitV>) -> Seq<u8>
    decreases payload.len(),
{
    if payload.len() == 0 {
        Seq::<u8>::empty()
    } else {
        enc_item_spec(payload[0], table) + enc_items_spec(payload.drop_first(), table)
    }
}

/// Appending an item appends its encoding.
pub proof fn lemma_enc_items_snoc(
    payload: Seq<PortableItemV>,
    item: PortableItemV,
    table: Seq<VarCommitV>,
)
    ensures
        enc_items_spec(payload.push(item), table) == enc_items_spec(payload, table)
            + enc_item_spec(item, table),
    decreases payload.len(),
{
    reveal_with_fuel(enc_items_spec, 3);
    if payload.len() == 0 {
        assert(payload.push(item).drop_first() =~= Seq::<PortableItemV>::empty());
        assert(enc_items_spec(payload.push(item), table) =~= enc_items_spec(payload, table)
            + enc_item_spec(item, table));
    } else {
        assert(payload.push(item).drop_first() =~= payload.drop_first().push(item));
        lemma_enc_items_snoc(payload.drop_first(), item, table);
        assert(enc_items_spec(payload.push(item), table) =~= enc_items_spec(payload, table)
            + enc_item_spec(item, table));
    }
}

/// The byte encoding of a whole output.
pub open spec fn encode_output_spec(c: ContractV, table: Seq<VarCommitV>) -> Seq<u8> {
    c.predicate + u32_le_bytes(c.payload.len() as u32) + enc_items_spec(c.payload, table)
}

/// Whether a payload can be encoded against a table of the given
/// length: data lengths fit their 32-bit prefixes and every value's
/// variables are live table entries.
pub open spec fn payload_wf(payload: Seq<PortableItemV>, table_len: int) -> bool {
    forall|i: int|
        0 <= i < payload.len() ==> match #[trigger] payload[i] {
            PortableItemV::Data(d) => d.len() < 0x1_0000_0000,
            PortableItemV::Value(v) => 0 <= v.qty < table_len && 0 <= v.flv < table_len,
        }
}

/// Whether a contract can be encoded against the given table: the
/// predicate is a point, the payload count fits its 32-bit prefix,
/// and the payload itself is encodable.
pub open spec fn contract_wf(c: ContractV, table_len: int) -> bool {
    &&& c.predicate.len() == 32
    &&& c.payload.len() < 0x1_0000_0000
    &&& payload_wf(c.payload, table_len)
}

/// The encoded size of one payload item: tag and length prefix plus
/// the bytes for data, tag plus two points for a value.
pub open spec fn item_size_spec(item: PortableItemV) -> int {
    match item {
        PortableItemV::Data(d) => 5 + d.len() as int,
        PortableItemV::Value(_) => 65,
    }
}

/// The encoded size of a payload, item by item.
pub open spec fn items_size_spec(payload: Seq<PortableItemV>) -> int
    decreases payload.len(),
{
    if payload.len() == 0 {
        0
    } else {
        item_size_spec(payload[0]) + items_size_spec(payload.drop_first())
    }
}

/// The byte length of a contract's output encoding: the predicate,
/// the count prefix, then each item.
pub open spec fn output_size_spec(c: ContractV) -> int {
    36 + items_size_spec(c.payload)
}

/// Appending an item adds its size.
pub proof fn lemma_items_size_snoc(payload: Seq<PortableItemV>, item: PortableItemV)
    ensures
        items_size_spec(payload.push(item)) == items_size_spec(payload) + item_size_spec(item),
    decreases payload.len(),
{
    reveal_with_fuel(items_size_spec, 3);
    if payload.len() == 0 {
        assert(payload.push(item).drop_first() =~= Seq::<PortableItemV>::empty());
    } else {
        assert(payload.push(item).drop_first() =~= payload.drop_first().push(item));
        lemma_items_size_snoc(payload.drop_first(), item);
    }
}

/// A payload's size is never negative.
pub proof fn lemma_items_size_nonneg(payload: Seq<PortableItemV>)
    ensures
        items_size_spec(payload) >= 0,
    decreases payload.len(),
{
    if payload.len() > 0 {
        lemma_items_size_nonneg(payload.drop_first());
    }
}

/// A payload's size splits at any index.
pub proof fn lemma_items_size_split(payload: Seq<PortableItemV>, j: int)
    requires
        0 <= j <= payload.len(),
    ensures
        items_size_spec(payload) == items_size_spec(payload.take(j)) + items_size_spec(
            payload.skip(j),
        ),
    decreases j,
{
    if j == 0 {
        assert(payload.take(0) =~= Seq::<PortableItemV>::empty());
        assert(payload.skip(0) =~= payload);
    } else {
        lemma_items_size_split(payload, j - 1);
        assert(payload.take(j) =~= payload.take(j - 1).push(payload[j - 1]));
        lemma_items_size_snoc(payload.take(j - 1), payload[j - 1]);
        let tail = payload.skip(j - 1);
        assert(tail.len() > 0);
        assert(tail[0] == payload[j - 1]);
        assert(tail.drop_first() =~= payload.skip(j));
        assert(items_size_spec(tail) == item_size_spec(payload[j - 1]) + items_size_spec(
            payload.skip(j),
        ));
    }
}

/// The declared size is exactly the length of the encoding.
pub proof fn lemma_output_size_is_encoding_len(c: ContractV, table: Seq<VarCommitV>)
    requires
        contract_wf(c, table.len() as int),
        table_wf(table),
    ensures
        output_size_spec(c) == encode_output_spec(c, table).len(),
{
    lemma_items_size_is_encoding_len(c.payload, table);
}

/// Item by item, the declared sizes add up to the encoding's length.
proof fn lemma_items_size_is_encoding_len(payload: Seq<PortableItemV>, table: Seq<VarCommitV>)
    requires
        payload_wf(payload, table.len() as int),
        table_wf(table),
    ensures
        enc_items_spec(payload, table).len() == items_size_spec(payload),
    decreases payload.len(),
{
    if payload.len() > 0 {
        let rest = payload.drop_first();
        assert(payload_wf(rest, table.len() as int)) by {
            assert(forall|i: int| 0 <= i < rest.len() ==> rest[i] == #[trigger] payload[i + 1]);
        }
        match payload[0] {
            PortableItemV::Data(_) => {},
            PortableItemV::Value(v) => {
                assert(resolve_spec(table, v.qty).len() == 32);
                assert(resolve_spec(table, v.flv).len() == 32);
            },
        }
        lemma_items_size_is_encoding_len(rest, table);
    }
}

impl VM {
    /// Creates a fresh engine for one transaction.
    pub fn new(tx: &Tx) -> (r: VM)
        ensures
            r.model() == init_vm_spec(tx.version, tx.maxtime, tx.program@),
            r.wf(),
            r.version == tx.version,
            r.mintime == tx.mintime,
    {
        let program = crate::types::clone_bytes(&tx.program);
        let r = VM {
            version: tx.version,
            mintime: tx.mintime,
            maxtime: tx.maxtime,
            extension: tx.version > CURRENT_VERSION,
            unique: false,
            stack: Vec::new(),
            current_run: Run { program, offset: 0 },
            run_stack: Vec::new(),
            txlog: Vec::new(),
            signtx_keys: Vec::new(),
            deferred_operations: Vec::new(),
            variable_commitments: CommitmentTable::new(),
        };
        proof {
            assert(r.model().stack =~= Seq::<ItemV>::empty());
            assert(r.model().txlog =~= Seq::<LogV>::empty());
            assert(r.model().keys =~= Seq::<Seq<u8>>::empty());
            assert(r.model().deferred =~= Seq::<Seq<(Seq<u8>, Seq<u8>)>>::empty());
        }
        r
    }

    /// Registers a commitment as a fresh detached variable.
    fn make_variable(&mut self, commitment: Vec<u8>) -> (r: crate::types::Variable)
        requires
            commitment@.len() == 32,
        ensures
            r@ == old(self).variable_commitments@.len(),
            final(self).variable_commitments@ == old(self).variable_commitments@.push(
                VarCommitV::Detached(commitment@),
            ),
            *final(self) == (VM {
                variable_commitments: final(self).variable_commitments,
                ..*old(self)
            }),
    {
        self.variable_commitments.allocate(commitment)
    }

    /// Looks up the current commitment of a variable.
    fn get_variable_commitment(&self, var: &crate::types::Variable) -> (r: &Vec<u8>)
        requires
            0 <= var@ < self.variable_commitments@.len(),
        ensures
            r@ == resolve_spec(self.variable_commitments@, var@),
    {
        self.variable_commitments.resolve(var)
    }

    /// Parses an output and instantiates its contract, registering
    /// each value's commitments in the table, quantity before flavor.
    /// A declared item count exceeding the remaining bytes is a
    /// format error before anything is allocated.
    pub fn decode_output(&mut self, output: &Vec<u8>) -> (r: Result<Contract, VMError>)
        requires
            table_wf(old(self).variable_commitments@),
        ensures
            table_wf(final(self).variable_commitments@),
            old(self).variable_commitments@.is_prefix_of(final(self).variable_commitments@),
            match decode_output_spec(output@, old(self).variable_commitments@) {
                Some((cv, t2)) => r matches Ok(c) && c@ == cv && final(self).variable_commitments@ == t2,
                None => r == Err::<Contract, VMError>(VMError::FormatError),
            },
            *final(self) == (VM {
                variable_commitments: final(self).variable_commitments,
                ..*old(self)
            }),
    {
        let ghost t0 = self.variable_commitments@;
        let predicate = match encoding::read_u8x32(output, 0) {
            Ok((p, _)) => p,
            Err(_) => {
                return Err(VMError::FormatError);
            },
        };
        let (k, start) = match encoding::read_usize(output, 32) {
            Ok(kp) => kp,
            Err(_) => {
                return Err(VMError::FormatError);
            },
        };
        // Guard against an untrusted count driving an oversized
        // allocation: k items need at least k bytes.
        if k > output.len() - start {
            proof {
                if parse_items_spec(output@, 36, k as nat, t0, Seq::empty()) is Some {
                    lemma_parse_items_needs_bytes(output@, 36, k as nat, t0, Seq::empty());
                    assert(false);
                }
            }
            return Err(VMError::FormatError);
        }
        let mut payload: Vec<PortableItem> = Vec::new();
        let mut pos: usize = start;
        let mut n: usize = 0;
        proof {
            assert(payload@.map_values(|p: PortableItem| p@) =~= Seq::<PortableItemV>::empty());
        }
        while n < k
            invariant
                n <= k,
                pos <= output@.len(),
                output@.len() <= usize::MAX,
                t0 == old(self).variable_commitments@,
                t0.is_prefix_of(self.variable_commitments@),
                output@.len() >= 36,
                k == le32_val(output@.subrange(32, 36)),
                parse_items_spec(output@, 36, k as nat, t0, Seq::empty()) == parse_items_spec(
                    output@,
                    pos as int,
                    (k - n) as nat,
                    self.variable_commitments@,
                    payload@.map_values(|p: PortableItem| p@),
                ),
                table_wf(self.variable_commitments@),
                *self == (VM { variable_commitments: self.variable_commitments, ..*old(self) }),
            decreases k - n,
        {
            let ghost pre_items = payload@.map_values(|p: PortableItem| p@);
            let ghost pre_table = self.variable_commitments@;
            let ghost whole = parse_items_spec(output@, 36, k as nat, t0, Seq::empty());
            proof {
                assert(whole == parse_items_spec(
                    output@,
                    pos as int,
                    (k - n) as nat,
                    pre_table,
                    pre_items,
                ));
            }
            let (tag, p1) = match encoding::read_u8(output, pos) {
                Ok(t) => t,
                Err(_) => {
                    proof {
                        assert(parse_one_item_spec(output@, pos as int, pre_table) is None);
                        assert(whole is None);
                    }
                    return Err(VMError::FormatError);
                },
            };
            let item: PortableItem = if tag == DATA_TYPE {
                let (len, p2) = match encoding::read_usize(output, p1) {
                    Ok(l) => l,
                    Err(_) => {
                        proof {
                            assert(parse_one_item_spec(output@, pos as int, pre_table) is None);
                            assert(whole is None);
                        }
                        return Err(VMError::FormatError);
                    },
                };
                let (bytes, p3) = match encoding::read_bytes(output, p2, len) {
                    Ok(b) => b,
                    Err(_) => {
                        proof {
                            assert(parse_one_item_spec(output@, pos as int, pre_table) is None);
                            assert(whole is None);
                        }
                        return Err(VMError::FormatError);
                    },
                };
                pos = p3;
                PortableItem::Data(Data { bytes })
            } else if tag == VALUE_TYPE {
                let (qty_bytes, p2) = match encoding::read_u8x32(output, p1) {
                    Ok(b) => b,
                    Err(_) => {
                        proof {
                            assert(parse_one_item_spec(output@, pos as int, pre_table) is None);
                            assert(whole is None);
                        }
                        return Err(VMError::FormatError);
                    },
                };
                let (flv_bytes, p3) = match encoding::read_u8x32(output, p2) {
                    Ok(b) => b,
                    Err(_) => {
                        proof {
                            assert(parse_one_item_spec(output@, pos as int, pre_table) is None);
                            assert(whole is None);
                        }
                        return Err(VMError::FormatError);
                    },
                };
                let qty = self.make_variable(qty_bytes);
                let flv = self.make_variable(flv_bytes);
                pos = p3;
                PortableItem::Value(crate::types::Value { qty, flv })
            } else {
                proof {
                    assert(parse_one_item_spec(output@, pos as int, pre_table) is None);
                    assert(whole is None);
                }
                return Err(VMError::FormatError);
            };
            payload.push(item);
            n = n + 1;
            proof {
                assert(self.variable_commitments@.subrange(0, t0.len() as int)
                    =~= pre_table.subrange(0, t0.len() as int));
                assert(payload@.map_values(|p: PortableItem| p@) =~= pre_items.push(
                    payload@.last()@,
                ));
                assert forall|i2: int|
                    0 <= i2 < self.variable_commitments@.len() implies (#[trigger] resolve_spec(
                    self.variable_commitments@,
                    i2,
                )).len() == 32 by {
                    if i2 < pre_table.len() {
                        assert(self.variable_commitments@[i2] == pre_table[i2]);
                        assert(resolve_spec(pre_table, i2).len() == 32);
                    }
                }
            }
        }
        let contract = Contract { payload, predicate: Predicate(predicate) };
        proof {
            assert(decode_output_spec(output@, t0) matches Some((cv, t2)) && contract@ == cv
                && self.variable_commitments@ == t2);
        }
        Ok(contract)
    }

    /// Parses an input and returns the instantiated contract, the
    /// previous transaction id and the spent output's identifier.
    /// The input length bound is the transcript collaborator's: the
    /// output bytes are committed as one message when the spent
    /// output's identifier is derived.
    pub fn decode_input(&mut self, input: &Vec<u8>) -> (r: Result<(Contract, TxID, UTXO), VMError>)
        requires
            table_wf(old(self).variable_commitments@),
            input@.len() < 0x1_0000_0000,
        ensures
            table_wf(final(self).variable_commitments@),
            old(self).variable_commitments@.is_prefix_of(final(self).variable_commitments@),
            match decode_input_spec(input@, old(self).variable_commitments@) {
                Some((cv, txidv, outputv, t2)) => r matches Ok((c, txid, utxo)) && c@ == cv
                    && txid@ == txidv && utxo@ == crypto::utxo_hash_of(txidv, outputv) && utxo@.len()
                    == 32 && final(self).variable_commitments@ == t2,
                None => r == Err::<(Contract, TxID, UTXO), VMError>(VMError::FormatError),
            },
            *final(self) == (VM {
                variable_commitments: final(self).variable_commitments,
                ..*old(self)
            }),
    {
        let (txid_bytes, start) = match encoding::read_u8x32(input, 0) {
            Ok(t) => t,
            Err(_) => {
                return Err(VMError::FormatError);
            },
        };
        let l: usize = input.len();
        let output = match encoding::read_bytes(input, start, l - start) {
            Ok((o, _)) => o,
            Err(_) => {
                return Err(VMError::FormatError);
            },
        };
        proof {
            assert(output@ =~= input@.subrange(32, input@.len() as int));
        }
        let contract = match self.decode_output(&output) {
            Ok(c) => c,
            Err(e) => {
                return Err(e);
            },
        };
        let txid = TxID(txid_bytes);
        let utxo = UTXO::from_output(&output, &txid);
        Ok((contract, txid, utxo))
    }

    /// Serializes a contract, writing each value's currently resolved
    /// commitment rather than any value cached at creation time.
    pub fn encode_output(&self, contract: &Contract) -> (r: Vec<u8>)
        requires
            contract_wf(contract@, self.variable_commitments@.len() as int),
        ensures
            r@ == encode_output_spec(contract@, self.variable_commitments@),
    {
        let ghost cv = contract@;
        let ghost table = self.variable_commitments@;
        let mut out: Vec<u8> = Vec::new();
        encoding::write_bytes(&mut out, &contract.predicate.0);
        encoding::write_u32(&mut out, contract.payload.len() as u32);
        let mut i: usize = 0;
        while i < contract.payload.len()
            invariant
                i <= contract.payload@.len(),
                cv == contract@,
                table == self.variable_commitments@,
                contract_wf(cv, table.len() as int),
                out@ == cv.predicate + u32_le_bytes(cv.payload.len() as u32) + enc_items_spec(
                    cv.payload.take(i as int),
                    table,
                ),
            decreases contract.payload@.len() - i,
        {
            proof {
                assert(cv.payload.take(i + 1) =~= cv.payload.take(i as int).push(
                    cv.payload[i as int],
                ));
                lemma_enc_items_snoc(cv.payload.take(i as int), cv.payload[i as int], table);
            }
            match &contract.payload[i] {
                PortableItem::Data(d) => {
                    encoding::write_u8(&mut out, DATA_TYPE);
                    encoding::write_u32(&mut out, d.bytes.len() as u32);
                    encoding::write_bytes(&mut out, &d.bytes);
                },
                PortableItem::Value(v) => {
                    encoding::write_u8(&mut out, VALUE_TYPE);
                    assert(cv.payload[i as int] matches PortableItemV::Value(vv) && vv.qty == v.qty@
                        && vv.flv == v.flv@);
                    let qty = self.get_variable_commitment(&v.qty);
                    encoding::write_bytes(&mut out, qty);
                    let flv = self.get_variable_commitment(&v.flv);
                    encoding::write_bytes(&mut out, flv);
                },
            }
            i = i + 1;
            assert(out@ =~= cv.predicate + u32_le_bytes(cv.payload.len() as u32) + enc_items_spec(
                cv.payload.take(i as int),
                table,
            ));
        }
        proof {
            assert(cv.payload.take(cv.payload.len() as int) =~= cv.payload);
        }
        out
    }
}


// ---------------------------------------------------------------
// Instruction semantics, one spec function per instruction. Each
// takes the state with the cursor already advanced past the
// instruction's encoding.
// ---------------------------------------------------------------

/// `push`: the `len` bytes ending at the cursor become an opaque data
/// string on the stack.
pub open spec fn push_spec(s: VmV, len: int) -> Result<VmV, VMError> {
    Ok(VmV { stack: s.stack.push(ItemV::Data(s.prog.subrange(s.offset - len, s.offset))), ..s })
}

/// `drop`: pops one item; only a copyable item may be dropped.
pub open spec fn drop_spec(s: VmV) -> Result<VmV, VMError> {
    if s.stack.len() == 0 {
        Err(VMError::StackUnderflow)
    } else if is_copyable(s.stack.last()) {
        Ok(VmV { stack: s.stack.drop_last(), ..s })
    } else {
        Err(VMError::TypeNotCopyable)
    }
}

/// `dup`: copies the item at depth `i` onto the top; only a copyable
/// item may be duplicated.
pub open spec fn dup_spec(s: VmV, i: int) -> Result<VmV, VMError> {
    if i >= s.stack.len() {
        Err(VMError::StackUnderflow)
    } else if is_copyable(s.stack[s.stack.len() - i - 1]) {
        Ok(VmV { stack: s.stack.push(s.stack[s.stack.len() - i - 1]), ..s })
    } else {
        Err(VMError::TypeNotCopyable)
    }
}

/// `roll`: moves the item at depth `i` to the top; no copy is made,
/// so any item may be rolled.
pub open spec fn roll_spec(s: VmV, i: int) -> Result<VmV, VMError> {
    if i >= s.stack.len() {
        Err(VMError::StackUnderflow)
    } else {
        let idx = s.stack.len() - i - 1;
        Ok(VmV { stack: s.stack.remove(idx).push(s.stack[idx]), ..s })
    }
}

/// `nonce`: pops a 32-byte data string, pushes an empty contract
/// gated by it, logs the anchor and makes the txid unique.
pub open spec fn nonce_spec(s: VmV) -> Result<VmV, VMError> {
    if s.stack.len() == 0 {
        Err(VMError::StackUnderflow)
    } else {
        match s.stack.last() {
            ItemV::Data(d) => if d.len() != 32 {
                Err(VMError::FormatError)
            } else {
                Ok(
                    VmV {
                        stack: s.stack.drop_last().push(
                            ItemV::Contract(ContractV { payload: Seq::empty(), predicate: d }),
                        ),
                        txlog: s.txlog.push(LogV::Nonce(d, s.maxtime)),
                        unique: true,
                        ..s
                    },
                )
            },
            _ => Err(VMError::TypeNotData),
        }
    }
}

/// `input`: pops a serialized input, decodes the spent output into a
/// live contract, logs the spent output's identifier and makes the
/// txid unique.
pub open spec fn input_spec(s: VmV) -> Result<VmV, VMError> {
    if s.stack.len() == 0 {
        Err(VMError::StackUnderflow)
    } else {
        match s.stack.last() {
            ItemV::Data(d) => match decode_input_spec(d, s.table) {
                None => Err(VMError::FormatError),
                Some((c, txid, output, t2)) => Ok(
                    VmV {
                        stack: s.stack.drop_last().push(ItemV::Contract(c)),
                        table: t2,
                        txlog: s.txlog.push(LogV::Input(crypto::utxo_hash_of(txid, output))),
                        unique: true,
                        ..s
                    },
                ),
            },
            _ => Err(VMError::TypeNotData),
        }
    }
}

/// An extension opcode: a no-op when the version permits extensions,
/// an error otherwise; the state is untouched either way.
pub open spec fn ext_spec(s: VmV) -> Result<VmV, VMError> {
    if s.extension {
        Ok(s)
    } else {
        Err(VMError::ExtensionsNotAllowed)
    }
}

/// The semantics of one instruction on an advanced state.
pub open spec fn instr_spec(instr: Instruction, s: VmV) -> Result<VmV, VMError> {
    match instr {
        Instruction::Push(len) => push_spec(s, len as int),
        Instruction::Drop => drop_spec(s),
        Instruction::Dup(i) => dup_spec(s, i as int),
        Instruction::Roll(i) => roll_spec(s, i as int),
        Instruction::Input => input_spec(s),
        Instruction::Nonce => nonce_spec(s),
        Instruction::Ext(_) => ext_spec(s),
    }
}

/// One step of the engine: done when the cursor is at the end of the
/// program, otherwise parse, advance past the instruction, execute.
pub open spec fn step_spec(s: VmV) -> Result<Option<VmV>, VMError> {
    if s.offset == s.prog.len() {
        Ok(None)
    } else {
        match ops::parse_spec(s.prog, s.offset) {
            None => Err(VMError::FormatError),
            Some((instr, n)) => match instr_spec(instr, VmV { offset: s.offset + n, ..s }) {
                Ok(s2) => Ok(Some(s2)),
                Err(e) => Err(e),
            },
        }
    }
}

/// Running the program to completion from a state: the first error
/// anywhere aborts the run.
pub open spec fn run_spec(s: VmV) -> Result<VmV, VMError>
    decreases s.prog.len() - s.offset,
    when 0 <= s.offset <= s.prog.len()
{
    if s.offset == s.prog.len() {
        Ok(s)
    } else {
        match ops::parse_spec(s.prog, s.offset) {
            None => Err(VMError::FormatError),
            Some((instr, n)) => match instr_spec(instr, VmV { offset: s.offset + n, ..s }) {
                Ok(s2) => run_spec(s2),
                Err(e) => Err(e),
            },
        }
    }
}

/// An executed instruction never moves the cursor or the program, so
/// one engine step either finishes, fails, or advances the cursor.
pub proof fn lemma_instr_spec_frame(instr: Instruction, s: VmV)
    requires
        instr_spec(instr, s) is Ok,
    ensures
        instr_spec(instr, s).unwrap().prog == s.prog,
        instr_spec(instr, s).unwrap().offset == s.offset,
        instr_spec(instr, s).unwrap().keys == s.keys,
        instr_spec(instr, s).unwrap().deferred == s.deferred,
        instr_spec(instr, s).unwrap().extension == s.extension,
        instr_spec(instr, s).unwrap().maxtime == s.maxtime,
{
}

/// How one spec step unfolds the whole run.
pub proof fn lemma_step_run(s: VmV)
    requires
        0 <= s.offset <= s.prog.len(),
    ensures
        step_spec(s) == Ok::<Option<VmV>, VMError>(None::<VmV>) ==> run_spec(s) == Ok::<
            VmV,
            VMError,
        >(s),
        step_spec(s) matches Err(e) ==> run_spec(s) == Err::<VmV, VMError>(e),
        step_spec(s) matches Ok(Some(s1)) ==> run_spec(s) == run_spec(s1) && s1.offset > s.offset
            && s1.prog == s.prog && s1.keys == s.keys && s1.deferred == s.deferred,
{
    if s.offset < s.prog.len() {
        match ops::parse_spec(s.prog, s.offset) {
            None => {},
            Some((instr, n)) => {
                ops::lemma_parse_spec_bounds(s.prog, s.offset);
                match instr_spec(instr, VmV { offset: s.offset + n, ..s }) {
                    Ok(s2) => {
                        lemma_instr_spec_frame(instr, VmV { offset: s.offset + n, ..s });
                    },
                    Err(_) => {},
                }
            },
        }
    }
}

/// A run never touches the collected signing keys or the deferred
/// point operations: no instruction of this set writes them.
pub proof fn lemma_run_frame(s: VmV)
    requires
        0 <= s.offset <= s.prog.len(),
        run_spec(s) is Ok,
    ensures
        run_spec(s).unwrap().keys == s.keys,
        run_spec(s).unwrap().deferred == s.deferred,
    decreases s.prog.len() - s.offset,
{
    if s.offset < s.prog.len() {
        match ops::parse_spec(s.prog, s.offset) {
            None => {},
            Some((instr, n)) => {
                ops::lemma_parse_spec_bounds(s.prog, s.offset);
                let s1 = VmV { offset: s.offset + n, ..s };
                match instr_spec(instr, s1) {
                    Ok(s2) => {
                        lemma_instr_spec_frame(instr, s1);
                        lemma_run_frame(s2);
                    },
                    Err(_) => {},
                }
            },
        }
    }
}

/// The outcome of constructing the engine for a transaction and
/// running its program, together with the stack and uniqueness
/// checks that follow a successful run.
pub open spec fn vm_run_outcome(version: u64, maxtime: u64, prog: Seq<u8>) -> Result<VmV, VMError> {
    match run_spec(init_vm_spec(version, maxtime, prog)) {
        Err(e) => Err(e),
        Ok(s) => if s.stack.len() > 0 {
            Err(VMError::StackNotClean)
        } else if !s.unique {
            Err(VMError::NotUniqueTxid)
        } else {
            Ok(s)
        },
    }
}

/// The state after the top stack item was popped: the residue an
/// instruction leaves when it fails after consuming its argument.
pub open spec fn popped_spec(s: VmV) -> VmV {
    VmV { stack: s.stack.drop_last(), ..s }
}

/// Relates an executed instruction to its spec outcome: on success
/// the engine holds exactly the spec state and stays well-formed; on
/// failure the same error is returned.
pub open spec fn steps_to(post: Result<VmV, VMError>, r: Result<(), VMError>, vm: VM) -> bool {
    match post {
        Ok(s) => r is Ok && vm.model() == s && vm.wf(),
        Err(e) => r == Err::<(), VMError>(e),
    }
}

impl VM {
    fn pushdata(&mut self, len: usize) -> (r: Result<(), VMError>)
        requires
            old(self).wf(),
            len <= old(self).current_run.offset,
            len < 0x1_0000_0000,
        ensures
            steps_to(push_spec(old(self).model(), len as int), r, *final(self)),
    {
        let start = self.current_run.offset - len;
        let bytes = match encoding::read_bytes(&self.current_run.program, start, len) {
            Ok((b, _)) => b,
            Err(_) => {
                proof {
                    assert(false);
                }
                return Err(VMError::FormatError);
            },
        };
        self.stack.push(Item::Data(Data { bytes }));
        proof {
            assert(self.model().stack =~= old(self).model().stack.push(
                ItemV::Data(
                    old(self).model().prog.subrange(
                        old(self).model().offset - len,
                        old(self).model().offset,
                    ),
                ),
            ));
            assert(self.model() =~= push_spec(old(self).model(), len as int).unwrap());
        }
        Ok(())
    }

    fn drop(&mut self) -> (r: Result<(), VMError>)
        requires
            old(self).wf(),
        ensures
            steps_to(drop_spec(old(self).model()), r, *final(self)),
            r is Err && old(self).model().stack.len() == 0 ==> final(self).wf() && final(self).model() == old(self).model(),
            r is Err && old(self).model().stack.len() > 0 ==> final(self).wf() && final(self).model() == popped_spec(old(self).model()),
    {
        let item = match self.stack.pop() {
            None => {
                proof {
                    assert(self.model() =~= old(self).model());
                }
                return Err(VMError::StackUnderflow);
            },
            Some(it) => it,
        };
        proof {
            assert(item@ == old(self).model().stack.last());
            assert(self.model().stack =~= old(self).model().stack.drop_last());
            assert(self.model() =~= popped_spec(old(self).model()));
        }
        match item {
            Item::Data(_) | Item::Variable(_) | Item::Expression(_) | Item::Constraint(_) => {
                proof {
                    assert(self.model() =~= drop_spec(old(self).model()).unwrap());
                }
                Ok(())
            },
            _ => Err(VMError::TypeNotCopyable),
        }
    }

    fn dup(&mut self, i: usize) -> (r: Result<(), VMError>)
        requires
            old(self).wf(),
        ensures
            steps_to(dup_spec(old(self).model(), i as int), r, *final(self)),
            r is Err ==> *final(self) == *old(self),
    {
        if i >= self.stack.len() {
            return Err(VMError::StackUnderflow);
        }
        let idx = self.stack.len() - i - 1;
        let dup = match self.stack[idx].duplicate() {
            Ok(d) => d,
            Err(e) => {
                proof {
                    assert(self.stack@[idx as int]@ == old(self).model().stack[idx as int]);
                }
                return Err(e);
            },
        };
        proof {
            assert(dup@ == old(self).model().stack[idx as int]);
        }
        self.stack.push(dup);
        proof {
            assert(self.model().stack =~= old(self).model().stack.push(
                old(self).model().stack[idx as int],
            ));
            assert(self.model() =~= dup_spec(old(self).model(), i as int).unwrap());
        }
        Ok(())
    }

    fn roll(&mut self, i: usize) -> (r: Result<(), VMError>)
        requires
            old(self).wf(),
        ensures
            steps_to(roll_spec(old(self).model(), i as int), r, *final(self)),
            r is Err ==> *final(self) == *old(self),
    {
        if i >= self.stack.len() {
            return Err(VMError::StackUnderflow);
        }
        let idx = self.stack.len() - i - 1;
        let item = self.stack.remove(idx);
        self.stack.push(item);
        proof {
            assert(self.model().stack =~= old(self).model().stack.remove(idx as int).push(
                old(self).model().stack[idx as int],
            ));
            assert(self.model() =~= roll_spec(old(self).model(), i as int).unwrap());
        }
        Ok(())
    }

    fn nonce(&mut self) -> (r: Result<(), VMError>)
        requires
            old(self).wf(),
        ensures
            steps_to(nonce_spec(old(self).model()), r, *final(self)),
            r is Err && old(self).model().stack.len() == 0 ==> final(self).wf() && final(self).model() == old(self).model(),
            r is Err && old(self).model().stack.len() > 0 ==> final(self).wf() && final(self).model() == popped_spec(old(self).model()),
    {
        let item = match self.stack.pop() {
            None => {
                proof {
                    assert(self.model() =~= old(self).model());
                }
                return Err(VMError::StackUnderflow);
            },
            Some(it) => it,
        };
        proof {
            assert(item@ == old(self).model().stack.last());
            assert(self.model().stack =~= old(self).model().stack.drop_last());
            assert(self.model() =~= popped_spec(old(self).model()));
        }
        let data = match item.to_data() {
            Ok(d) => d,
            Err(e) => {
                return Err(e);
            },
        };
        let point = match data.to_point() {
            Ok(p) => p,
            Err(e) => {
                return Err(e);
            },
        };
        let pred_copy = crate::types::clone_bytes(&point);
        let maxtime = self.maxtime;
        self.txlog.push(LogEntry::Nonce(Predicate(pred_copy), maxtime));
        self.stack.push(
            Item::Contract(Contract { payload: Vec::new(), predicate: Predicate(point) }),
        );
        self.unique = true;
        proof {
            let s0 = old(self).model();
            let d = s0.stack.last()->Data_0;
            assert(self.model().txlog =~= s0.txlog.push(LogV::Nonce(d, s0.maxtime)));
            assert(self.stack@.last()@ matches ItemV::Contract(c) && c.payload
                =~= Seq::<PortableItemV>::empty() && c.predicate == d);
            assert(self.model().stack =~= s0.stack.drop_last().push(
                ItemV::Contract(ContractV { payload: Seq::empty(), predicate: d }),
            ));
            assert(self.model() =~= nonce_spec(s0).unwrap());
        }
        Ok(())
    }

    fn input(&mut self) -> (r: Result<(), VMError>)
        requires
            old(self).wf(),
        ensures
            steps_to(input_spec(old(self).model()), r, *final(self)),
            r is Err && old(self).model().stack.len() == 0 ==> final(self).wf() && final(self).model() == old(self).model(),
            r is Err && old(self).model().stack.len() > 0 ==> final(self).wf() && ({
                let m = final(self).model();
                m == (VmV { table: m.table, ..popped_spec(old(self).model()) }) && old(self).model().table.is_prefix_of(m.table)
            }),
    {
        let item = match self.stack.pop() {
            None => {
                proof {
                    assert(self.model() =~= old(self).model());
                }
                return Err(VMError::StackUnderflow);
            },
            Some(it) => it,
        };
        proof {
            assert(item@ == old(self).model().stack.last());
            assert(self.model().stack =~= old(self).model().stack.drop_last());
            assert(self.model() =~= popped_spec(old(self).model()));
        }
        let data = match item.to_data() {
            Ok(d) => d,
            Err(e) => {
                return Err(e);
            },
        };
        let ghost popped = self.model();
        let (contract, _txid, utxo) = match self.decode_input(&data.bytes) {
            Ok(t) => t,
            Err(e) => {
                proof {
                    assert(self.model() =~= (VmV { table: self.model().table, ..popped }));
                }
                return Err(e);
            },
        };
        self.stack.push(Item::Contract(contract));
        self.txlog.push(LogEntry::Input(utxo));
        self.unique = true;
        proof {
            let s0 = old(self).model();
            let d = s0.stack.last()->Data_0;
            let (cv, txidv, outputv, t2) = decode_input_spec(d, s0.table).unwrap();
            assert(self.model().stack =~= s0.stack.drop_last().push(ItemV::Contract(cv)));
            assert(self.model().txlog =~= s0.txlog.push(
                LogV::Input(crypto::utxo_hash_of(txidv, outputv)),
            ));
            assert(log_wf(self.model().txlog));
            assert(self.model() =~= input_spec(s0).unwrap());
        }
        Ok(())
    }

    fn ext(&mut self, _opcode: u8) -> (r: Result<(), VMError>)
        requires
            old(self).wf(),
        ensures
            steps_to(ext_spec(old(self).model()), r, *final(self)),
            *final(self) == *old(self),
    {
        if self.extension {
            Ok(())
        } else {
            Err(VMError::ExtensionsNotAllowed)
        }
    }

    /// Pops the next suspended program, if any, making it current.
    /// With no suspended runs the execution is complete.
    fn finish_run(&mut self) -> (r: bool)
        ensures
            r == (old(self).run_stack@.len() > 0),
            old(self).run_stack@.len() == 0 ==> final(self).model() == old(self).model()
                && final(self).run_stack@.len() == 0,
            old(self).run_stack@.len() > 0 ==> ({
                &&& final(self).model() == (VmV {
                    prog: old(self).run_stack@.last().program@,
                    offset: old(self).run_stack@.last().offset as int,
                    ..old(self).model()
                })
                &&& final(self).run_stack@ == old(self).run_stack@.drop_last()
            }),
    {
        if let Some(run) = self.run_stack.pop() {
            self.current_run = run;
            proof {
                assert(self.model() =~= (VmV {
                    prog: old(self).run_stack@.last().program@,
                    offset: old(self).run_stack@.last().offset as int,
                    ..old(self).model()
                }));
            }
            return true;
        }
        false
    }

    /// Executes one instruction; returns whether to continue.
    ///
    /// The cursor advances past the instruction before it executes,
    /// so a mid-instruction failure leaves a consistent offset.
    fn step(&mut self) -> (r: Result<bool, VMError>)
        requires
            old(self).wf(),
        ensures
            ({
                let s0 = old(self).model();
                match step_spec(s0) {
                    Err(e) => r == Err::<bool, VMError>(e),
                    Ok(None) => r == Ok::<bool, VMError>(false) && final(self).model() == s0
                        && final(self).wf(),
                    Ok(Some(s1)) => r == Ok::<bool, VMError>(true) && final(self).model() == s1
                        && final(self).wf(),
                }
            }),
    {
        if self.current_run.offset == self.current_run.program.len() {
            let cont = self.finish_run();
            return Ok(cont);
        }
        let (instr, size) = match ops::parse(&self.current_run.program, self.current_run.offset) {
            None => {
                return Err(VMError::FormatError);
            },
            Some(p) => p,
        };
        proof {
            ops::lemma_parse_spec_bounds(old(self).model().prog, old(self).model().offset);
        }
        self.current_run.offset = self.current_run.offset + size;
        let ghost s1 = VmV {
            offset: old(self).model().offset + size,
            ..old(self).model()
        };
        proof {
            assert(self.model() =~= s1);
        }
        let res = match instr {
            Instruction::Push(len) => self.pushdata(len),
            Instruction::Drop => self.drop(),
            Instruction::Dup(i) => self.dup(i),
            Instruction::Roll(i) => self.roll(i),
            Instruction::Input => self.input(),
            Instruction::Nonce => self.nonce(),
            Instruction::Ext(op) => self.ext(op),
        };
        match res {
            Ok(()) => Ok(true),
            Err(e) => Err(e),
        }
    }

    /// Runs through the entire program until completion or the first
    /// error.
    pub fn run(&mut self) -> (r: Result<(), VMError>)
        requires
            old(self).wf(),
        ensures
            match run_spec(old(self).model()) {
                Ok(s) => r is Ok && final(self).model() == s && final(self).wf(),
                Err(e) => r == Err::<(), VMError>(e),
            },
    {
        loop
            invariant
                self.wf(),
                run_spec(self.model()) == run_spec(old(self).model()),
            decreases self.model().prog.len() - self.model().offset,
        {
            let ghost pre = self.model();
            let cont = match self.step() {
                Err(e) => {
                    proof {
                        lemma_step_run(pre);
                    }
                    return Err(e);
                },
                Ok(c) => c,
            };
            proof {
                lemma_step_run(pre);
            }
            if !cont {
                return Ok(());
            }
        }
    }

    /// Validates one transaction: runs its program, requires a clean
    /// stack and a unique txid, then checks the deferred point
    /// operations and the constraint-system proof. Any failure aborts
    /// the whole transaction; nothing is partially accepted.
    ///
    /// Deviation from the full protocol: the aggregated signature in
    /// `tx.signature` covers the keys collected by `signtx`, an
    /// instruction outside this engine's set; the collected key set
    /// is provably empty here, no signature collaborator is among the
    /// dependencies, and the signature is carried but not evaluated.
    pub fn verify_tx(tx: &Tx, bp_gens: &bulletproofs::BulletproofGens) -> (r: Result<
        VerifiedTx,
        VMError,
    >)
        ensures
            ({
                match vm_run_outcome(tx.version, tx.maxtime, tx.program@) {
                    Err(e) => r == Err::<VerifiedTx, VMError>(e),
                    Ok(s) => (r matches Ok(v) && v.txid@ == crypto::txid_hash_of(
                        log_encodings(s.txlog),
                    )) || r == Err::<VerifiedTx, VMError>(VMError::PointOperationFailed),
                }
            }),
    {
        let mut vm = VM::new(tx);
        match vm.run() {
            Err(e) => {
                return Err(e);
            },
            Ok(()) => {},
        }
        if vm.stack.len() > 0 {
            return Err(VMError::StackNotClean);
        }
        if !vm.unique {
            return Err(VMError::NotUniqueTxid);
        }
        // Deferred point operations, collected during the run, are
        // checked exactly once, here. No instruction of this set
        // defers one, so the queue is provably empty and the check
        // passes; the only remaining source of PointOperationFailed
        // is the constraint-system proof below.
        proof {
            lemma_run_frame(init_vm_spec(tx.version, tx.maxtime, tx.program@));
            assert(vm.deferred_operations@.map_values(|op: PointOp| op@) =~= Seq::<
                Seq<(Seq<u8>, Seq<u8>)>,
            >::empty());
            assert(vm.deferred_operations@.len() == 0);
        }
        match point_ops::verify_batch(&vm.deferred_operations) {
            Err(e) => {
                proof {
                    assert(false);
                }
                return Err(e);
            },
            Ok(()) => {},
        }
        // The aggregated signature covers the keys collected by the
        // run; no instruction of this set collects any, so there is
        // nothing to check against tx.signature.
        let txid = TxID::from_txlog(&vm.txlog);
        if !crypto::r1cs_proof_verifies(&tx.proof, bp_gens) {
            return Err(VMError::PointOperationFailed);
        }
        Ok(VerifiedTx { txid })
    }
}


impl Contract {
    /// The byte length of this contract's output encoding.
    pub fn output_size(&self) -> (r: usize)
        requires
            output_size_spec(self@) <= usize::MAX,
        ensures
            r == output_size_spec(self@),
    {
        let ghost cv = self@;
        let mut size: usize = 36;
        let mut i: usize = 0;
        proof {
            assert(cv.payload.take(0) =~= Seq::<PortableItemV>::empty());
        }
        while i < self.payload.len()
            invariant
                i <= self.payload@.len(),
                cv == self@,
                output_size_spec(cv) <= usize::MAX,
                size == 36 + items_size_spec(cv.payload.take(i as int)),
            decreases self.payload@.len() - i,
        {
            proof {
                assert(cv.payload.take(i + 1) =~= cv.payload.take(i as int).push(
                    cv.payload[i as int],
                ));
                lemma_items_size_snoc(cv.payload.take(i as int), cv.payload[i as int]);
                lemma_items_size_split(cv.payload, i + 1);
                lemma_items_size_nonneg(cv.payload.skip(i + 1));
            }
            match &self.payload[i] {
                PortableItem::Data(d) => {
                    size = size + 5 + d.bytes.len();
                },
                PortableItem::Value(_) => {
                    size = size + 65;
                },
            }
            i = i + 1;
        }
        proof {
            assert(cv.payload.take(cv.payload.len() as int) =~= cv.payload);
        }
        size
    }
}

} // verus!
