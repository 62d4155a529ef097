//! The binary codec for the transaction wire format.
//!
//! Every reader takes a buffer and a position and returns either the
//! parsed value together with the position just past it, or
//! `VMError::FormatError` on a truncated buffer. Writers append the
//! exact byte encoding; they are right-inverses of the readers.

use vstd::prelude::*;

use crate::errors::VMError;

verus! {

/// The value of four little-endian bytes.
pub open spec fn le32_val(b: Seq<u8>) -> int
    recommends
        b.len() == 4,
{
    b[0] + 0x100 * b[1] + 0x1_0000 * b[2] + 0x100_0000 * b[3]
}

/// The four little-endian bytes of a 32-bit value.
pub open spec fn u32_le_bytes(n: u32) -> Seq<u8> {
    seq![
        (n & 0xff) as u8,
        ((n >> 8) & 0xff) as u8,
        ((n >> 16) & 0xff) as u8,
        ((n >> 24) & 0xff) as u8,
    ]
}

/// The eight little-endian bytes of a 64-bit value.
pub open spec fn u64_le_bytes(n: u64) -> Seq<u8> {
    seq![
        (n & 0xff) as u8,
        ((n >> 8) & 0xff) as u8,
        ((n >> 16) & 0xff) as u8,
        ((n >> 24) & 0xff) as u8,
        ((n >> 32) & 0xff) as u8,
        ((n >> 40) & 0xff) as u8,
        ((n >> 48) & 0xff) as u8,
        ((n >> 56) & 0xff) as u8,
    ]
}

/// Reading back the four little-endian bytes of `n` yields `n`.
pub proof fn lemma_u32_le_round_trip(n: u32)
    ensures
        le32_val(u32_le_bytes(n)) == n,
{
    assert(((n & 0xff) as u8) as u64 + 0x100 * (((n >> 8) & 0xff) as u8) as u64 + 0x1_0000 * (((
    n >> 16) & 0xff) as u8) as u64 + 0x100_0000 * (((n >> 24) & 0xff) as u8) as u64 == n as u64)
        by (bit_vector);
}

/// The value of four little-endian bytes is a 32-bit value.
pub proof fn lemma_le32_val_bounds(b: Seq<u8>)
    requires
        b.len() == 4,
    ensures
        0 <= le32_val(b) < 0x1_0000_0000,
{
}

/// Reads a single byte.
pub fn read_u8(buf: &Vec<u8>, pos: usize) -> (r: Result<(u8, usize), VMError>)
    ensures
        pos < buf@.len() ==> r == Ok::<(u8, usize), VMError>((buf@[pos as int], (pos + 1) as usize)),
        pos >= buf@.len() ==> r == Err::<(u8, usize), VMError>(VMError::FormatError),
{
    if pos < buf.len() {
        Ok((buf[pos], pos + 1))
    } else {
        Err(VMError::FormatError)
    }
}

/// Whether `n` more bytes are available at `pos`.
pub fn has_bytes(buf: &Vec<u8>, pos: usize, n: usize) -> (r: bool)
    ensures
        r == (pos + n <= buf@.len()),
{
    n <= buf.len() && pos <= buf.len() - n
}

/// Reads `n` bytes as an owned byte string.
pub fn read_bytes(buf: &Vec<u8>, pos: usize, n: usize) -> (r: Result<(Vec<u8>, usize), VMError>)
    ensures
        pos + n <= buf@.len() ==> ({
            &&& r is Ok
            &&& r->Ok_0.0@ == buf@.subrange(pos as int, pos + n)
            &&& r->Ok_0.1 == pos + n
        }),
        pos + n > buf@.len() ==> r == Err::<(Vec<u8>, usize), VMError>(VMError::FormatError),
{
    if !has_bytes(buf, pos, n) {
        return Err(VMError::FormatError);
    }
    let l: usize = buf.len();
    assert(pos + n <= l);
    let mut out: Vec<u8> = Vec::new();
    let mut i: usize = 0;
    while i < n
        invariant
            pos + n <= buf@.len(),
            buf@.len() <= usize::MAX,
            i <= n,
            out@ == buf@.subrange(pos as int, pos + i),
        decreases n - i,
    {
        out.push(buf[pos + i]);
        i = i + 1;
        assert(out@ =~= buf@.subrange(pos as int, pos + i));
    }
    Ok((out, pos + n))
}

/// Reads a fixed 32-byte string (a compressed point or an identifier).
pub fn read_u8x32(buf: &Vec<u8>, pos: usize) -> (r: Result<(Vec<u8>, usize), VMError>)
    ensures
        pos + 32 <= buf@.len() ==> ({
            &&& r is Ok
            &&& r->Ok_0.0@ == buf@.subrange(pos as int, pos + 32)
            &&& r->Ok_0.1 == pos + 32
        }),
        pos + 32 > buf@.len() ==> r == Err::<(Vec<u8>, usize), VMError>(VMError::FormatError),
{
    read_bytes(buf, pos, 32)
}

/// Reads a little-endian 32-bit length prefix as a `usize`.
pub fn read_usize(buf: &Vec<u8>, pos: usize) -> (r: Result<(usize, usize), VMError>)
    ensures
        pos + 4 <= buf@.len() ==> ({
            &&& r is Ok
            &&& r->Ok_0.0 == le32_val(buf@.subrange(pos as int, pos + 4))
            &&& r->Ok_0.1 == pos + 4
        }),
        pos + 4 > buf@.len() ==> r == Err::<(usize, usize), VMError>(VMError::FormatError),
{
    if !has_bytes(buf, pos, 4) {
        return Err(VMError::FormatError);
    }
    let l: usize = buf.len();
    assert(pos + 4 <= l);
    let b0 = buf[pos] as usize;
    let b1 = buf[pos + 1] as usize;
    let b2 = buf[pos + 2] as usize;
    let b3 = buf[pos + 3] as usize;
    let n: usize = b0 + 0x100 * b1 + 0x1_0000 * b2 + 0x100_0000 * b3;
    assert(n == le32_val(buf@.subrange(pos as int, pos + 4)));
    Ok((n, pos + 4))
}

/// Appends a single byte.
pub fn write_u8(out: &mut Vec<u8>, x: u8)
    ensures
        final(out)@ == old(out)@.push(x),
{
    out.push(x);
}

/// Appends the four little-endian bytes of `n`.
pub fn write_u32(out: &mut Vec<u8>, n: u32)
    ensures
        final(out)@ == old(out)@ + u32_le_bytes(n),
{
    out.push((n & 0xff) as u8);
    out.push(((n >> 8) & 0xff) as u8);
    out.push(((n >> 16) & 0xff) as u8);
    out.push(((n >> 24) & 0xff) as u8);
    assert(out@ =~= old(out)@ + u32_le_bytes(n));
}

/// Appends the eight little-endian bytes of `n`.
pub fn write_u64(out: &mut Vec<u8>, n: u64)
    ensures
        final(out)@ == old(out)@ + u64_le_bytes(n),
{
    out.push((n & 0xff) as u8);
    out.push(((n >> 8) & 0xff) as u8);
    out.push(((n >> 16) & 0xff) as u8);
    out.push(((n >> 24) & 0xff) as u8);
    out.push(((n >> 32) & 0xff) as u8);
    out.push(((n >> 40) & 0xff) as u8);
    out.push(((n >> 48) & 0xff) as u8);
    out.push(((n >> 56) & 0xff) as u8);
    assert(out@ =~= old(out)@ + u64_le_bytes(n));
}

/// Appends a byte string as-is.
pub fn write_bytes(out: &mut Vec<u8>, b: &Vec<u8>)
    ensures
        final(out)@ == old(out)@ + b@,
{
    let mut i: usize = 0;
    while i < b.len()
        invariant
            i <= b@.len(),
            out@ == old(out)@ + b@.take(i as int),
        decreases b@.len() - i,
    {
        out.push(b[i]);
        i = i + 1;
        assert(out@ =~= old(out)@ + b@.take(i as int));
    }
    assert(out@ =~= old(out)@ + b@);
}

} // verus!
