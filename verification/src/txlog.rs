//! The transaction log and the identifiers derived from it.
//!
//! The log is append-only: every state-affecting event is recorded in
//! execution order and never mutated. The transaction id is a
//! domain-separated transcript hash: each entry's canonical byte
//! encoding, as defined here, is committed to the transcript as one
//! message, in order:
//!
//! - `issue`: `0x00 || qty point || flavor point`;
//! - `retire`: `0x01 || qty point || flavor point`;
//! - `input`: `0x02 || utxo id`;
//! - `nonce`: `0x03 || predicate || LE64(maxtime)`;
//! - `output`: `0x04 || LE32(len) || bytes`;
//! - `data`: `0x05 || LE32(len) || bytes`;
//! - `import`: `0x06`; `export`: `0x07`.

use vstd::prelude::*;

use crate::crypto;
use crate::encoding;
use crate::encoding::{u32_le_bytes, u64_le_bytes};
use crate::types::{Data, Predicate};

verus! {

/// A unique 32-byte identifier of a transaction.
pub struct TxID(pub Vec<u8>);

impl View for TxID {
    type V = Seq<u8>;

    open spec fn view(&self) -> Seq<u8> {
        self.0@
    }
}

/// A unique 32-byte identifier of a transaction output.
pub struct UTXO(pub Vec<u8>);

impl View for UTXO {
    type V = Seq<u8>;

    open spec fn view(&self) -> Seq<u8> {
        self.0@
    }
}

/// An entry in the transaction log.
pub enum LogEntry {
    /// Quantity and flavor commitments of an issued value.
    Issue(Vec<u8>, Vec<u8>),
    /// Quantity and flavor commitments of a retired value.
    Retire(Vec<u8>, Vec<u8>),
    /// The identifier of a spent output.
    Input(UTXO),
    /// A single-use anchor: the predicate and the time until which it
    /// is valid.
    Nonce(Predicate, u64),
    /// The byte encoding of a created output.
    Output(Vec<u8>),
    /// An opaque data commitment.
    Data(Data),
    /// An imported value (parameters are an extension point).
    Import,
    /// An exported value (parameters are an extension point).
    Export,
}

/// Mathematical model of a log entry.
pub enum LogV {
    Issue(Seq<u8>, Seq<u8>),
    Retire(Seq<u8>, Seq<u8>),
    Input(Seq<u8>),
    Nonce(Seq<u8>, u64),
    Output(Seq<u8>),
    Data(Seq<u8>),
    Import,
    Export,
}

impl View for LogEntry {
    type V = LogV;

    open spec fn view(&self) -> LogV {
        match self {
            LogEntry::Issue(q, f) => LogV::Issue(q@, f@),
            LogEntry::Retire(q, f) => LogV::Retire(q@, f@),
            LogEntry::Input(u) => LogV::Input(u@),
            LogEntry::Nonce(p, t) => LogV::Nonce(p@, *t),
            LogEntry::Output(b) => LogV::Output(b@),
            LogEntry::Data(d) => LogV::Data(d@),
            LogEntry::Import => LogV::Import,
            LogEntry::Export => LogV::Export,
        }
    }
}

/// Whether a log entry can be canonically encoded: points and
/// identifiers are 32 bytes; byte strings fit their 32-bit length
/// prefix with room for the tag and prefix themselves, so that the
/// whole entry encoding fits one transcript message.
pub open spec fn log_entry_wf(e: LogV) -> bool {
    match e {
        LogV::Issue(q, f) => q.len() == 32 && f.len() == 32,
        LogV::Retire(q, f) => q.len() == 32 && f.len() == 32,
        LogV::Input(u) => u.len() == 32,
        LogV::Nonce(p, _) => p.len() == 32,
        LogV::Output(b) => b.len() <= 0xFFFF_FFFA,
        LogV::Data(b) => b.len() <= 0xFFFF_FFFA,
        LogV::Import => true,
        LogV::Export => true,
    }
}

/// Whether every entry of a log can be canonically encoded.
pub open spec fn log_wf(log: Seq<LogV>) -> bool {
    forall|i: int| 0 <= i < log.len() ==> log_entry_wf(#[trigger] log[i])
}

/// The canonical byte encoding of one log entry.
pub open spec fn enc_log_entry(e: LogV) -> Seq<u8> {
    match e {
        LogV::Issue(q, f) => seq![0x00u8] + q + f,
        LogV::Retire(q, f) => seq![0x01u8] + q + f,
        LogV::Input(u) => seq![0x02u8] + u,
        LogV::Nonce(p, t) => seq![0x03u8] + p + u64_le_bytes(t),
        LogV::Output(b) => seq![0x04u8] + u32_le_bytes(b.len() as u32) + b,
        LogV::Data(b) => seq![0x05u8] + u32_le_bytes(b.len() as u32) + b,
        LogV::Import => seq![0x06u8],
        LogV::Export => seq![0x07u8],
    }
}

/// The canonical encodings of a log's entries, in order.
pub open spec fn log_encodings(log: Seq<LogV>) -> Seq<Seq<u8>> {
    log.map_values(|e: LogV| enc_log_entry(e))
}

/// A well-formed entry's canonical encoding fits one transcript
/// message.
pub proof fn lemma_enc_log_entry_len(e: LogV)
    requires
        log_entry_wf(e),
    ensures
        enc_log_entry(e).len() <= 0xFFFF_FFFF,
{
}

/// Appends the canonical encoding of one entry.
fn encode_log_entry(out: &mut Vec<u8>, e: &LogEntry)
    requires
        log_entry_wf(e@),
    ensures
        final(out)@ == old(out)@ + enc_log_entry(e@),
{
    match e {
        LogEntry::Issue(q, f) => {
            encoding::write_u8(out, 0x00);
            encoding::write_bytes(out, q);
            encoding::write_bytes(out, f);
        },
        LogEntry::Retire(q, f) => {
            encoding::write_u8(out, 0x01);
            encoding::write_bytes(out, q);
            encoding::write_bytes(out, f);
        },
        LogEntry::Input(u) => {
            encoding::write_u8(out, 0x02);
            encoding::write_bytes(out, &u.0);
        },
        LogEntry::Nonce(p, t) => {
            encoding::write_u8(out, 0x03);
            encoding::write_bytes(out, &p.0);
            encoding::write_u64(out, *t);
        },
        LogEntry::Output(b) => {
            encoding::write_u8(out, 0x04);
            encoding::write_u32(out, b.len() as u32);
            encoding::write_bytes(out, b);
        },
        LogEntry::Data(d) => {
            encoding::write_u8(out, 0x05);
            encoding::write_u32(out, d.bytes.len() as u32);
            encoding::write_bytes(out, &d.bytes);
        },
        LogEntry::Import => {
            encoding::write_u8(out, 0x06);
        },
        LogEntry::Export => {
            encoding::write_u8(out, 0x07);
        },
    }
    assert(out@ =~= old(out)@ + enc_log_entry(e@));
}

impl TxID {
    /// Derives the transaction id from the finalized log: the
    /// transcript hash of the entries' canonical encodings,
    /// committed one message per entry, in order.
    pub fn from_txlog(log: &Vec<LogEntry>) -> (r: TxID)
        requires
            log_wf(log@.map_values(|e: LogEntry| e@)),
        ensures
            r@ == crypto::txid_hash_of(log_encodings(log@.map_values(|e: LogEntry| e@))),
            r@.len() == 32,
    {
        let ghost logv = log@.map_values(|e: LogEntry| e@);
        let mut entries: Vec<Vec<u8>> = Vec::new();
        let mut i: usize = 0;
        while i < log.len()
            invariant
                i <= log@.len(),
                logv == log@.map_values(|e: LogEntry| e@),
                log_wf(logv),
                entries@.len() == i,
                forall|j: int| 0 <= j < i ==> (#[trigger] entries@[j])@ == enc_log_entry(logv[j]),
            decreases log@.len() - i,
        {
            proof {
                assert(logv[i as int] == log@[i as int]@);
            }
            let mut buf: Vec<u8> = Vec::new();
            encode_log_entry(&mut buf, &log[i]);
            entries.push(buf);
            i = i + 1;
        }
        proof {
            assert forall|j: int|
                0 <= j < entries@.len() implies (#[trigger] entries@[j])@.len()
                <= 0xFFFF_FFFF by {
                lemma_enc_log_entry_len(logv[j]);
            }
            assert(entries@.map_values(|e: Vec<u8>| e@) =~= log_encodings(logv));
        }
        TxID(crypto::txid_hash(&entries))
    }
}

impl UTXO {
    /// Computes the identifier of an output from its byte encoding and
    /// its originating transaction id. The bounds are the transcript
    /// collaborator's: a committed message must fit a 32-bit length.
    pub fn from_output(output: &Vec<u8>, txid: &TxID) -> (r: UTXO)
        requires
            output@.len() < 0x1_0000_0000,
            txid@.len() < 0x1_0000_0000,
        ensures
            r@ == crypto::utxo_hash_of(txid@, output@),
            r@.len() == 32,
    {
        UTXO(crypto::utxo_hash(&txid.0, output))
    }
}

} // verus!
