//! Trusted boundary to the cryptographic collaborators.
//!
//! Everything verified in this crate works on plain byte strings; the
//! transcript hashes, scalar decoding, point arithmetic and the
//! constraint-system proof check are performed by outside crates behind
//! the declarations and wrappers below.

use vstd::prelude::*;

use curve25519_dalek::ristretto::{CompressedRistretto, RistrettoPoint};
use curve25519_dalek::scalar::Scalar;
use curve25519_dalek::traits::{IsIdentity, VartimeMultiscalarMul};

verus! {

#[verifier::external_type_specification]
#[verifier::external_body]
pub struct ExScalar(Scalar);

#[verifier::external_type_specification]
#[verifier::external_body]
pub struct ExR1CSProof(bulletproofs::r1cs::R1CSProof);

#[verifier::external_type_specification]
#[verifier::external_body]
pub struct ExBulletproofGens(bulletproofs::BulletproofGens);

/// The flavor scalar (32 canonical little-endian bytes) that the
/// `issue` protocol derives from a predicate; a function of the
/// predicate bytes alone.
pub uninterp spec fn issue_flavor_of(predicate: Seq<u8>) -> Seq<u8>;

/// The 32-byte identifier of an output, derived from the originating
/// transaction id and the output's byte encoding, and from them alone.
pub uninterp spec fn utxo_hash_of(txid: Seq<u8>, output: Seq<u8>) -> Seq<u8>;

/// The 32-byte transaction id derived from the sequence of the log
/// entries' canonical encodings, and from it alone.
pub uninterp spec fn txid_hash_of(entries: Seq<Seq<u8>>) -> Seq<u8>;

/// The scalar that a canonical 32-byte encoding decodes to; a
/// function of the bytes alone.
pub uninterp spec fn scalar_val_of(b: Seq<u8>) -> Scalar;

/// Whether a linear combination of group elements equals the identity:
/// `terms` is a sequence of (scalar bytes, compressed point bytes)
/// pairs. False when any scalar is non-canonical or any point is not a
/// valid compressed encoding.
pub uninterp spec fn point_terms_hold(terms: Seq<(Seq<u8>, Seq<u8>)>) -> bool;

/// The group order of the scalar field: 2^252 + 27742317777372353535851937790883648493.
pub open spec fn scalar_order() -> int {
    0x1000000000000000000000000000000014def9dea2f79cd65812631a5cf5d3edint
}

/// The little-endian value of a byte string.
pub open spec fn le_bytes_val(b: Seq<u8>) -> int
    decreases b.len(),
{
    if b.len() == 0 {
        0
    } else {
        b[0] + 0x100 * le_bytes_val(b.drop_first())
    }
}

/// Whether 32 bytes are the canonical encoding of a scalar.
pub open spec fn is_canonical_scalar(b: Seq<u8>) -> bool {
    b.len() == 32 && le_bytes_val(b) < scalar_order()
}

/// Relies on curve25519_dalek's `Scalar::from_canonical_bytes`: it
/// returns a scalar exactly when the 32 bytes, read as a little-endian
/// integer, are below the group order.
#[verifier::external_body]
pub(crate) fn scalar_from_canonical(b: &Vec<u8>) -> (r: Option<Scalar>)
    requires
        b@.len() == 32,
    ensures
        r is Some <==> is_canonical_scalar(b@),
        r matches Some(s) ==> s == scalar_val_of(b@),
{
    let arr: [u8; 32] = b.as_slice().try_into().unwrap();
    Option::from(Scalar::from_canonical_bytes(arr))
}

/// Relies on merlin's `Transcript` and curve25519_dalek's wide scalar
/// reduction: the flavor bytes are a function of the predicate bytes.
/// A committed message must fit a 32-bit length.
#[verifier::external_body]
pub(crate) fn issue_flavor_bytes(predicate: &Vec<u8>) -> (r: Vec<u8>)
    requires
        predicate@.len() < 0x1_0000_0000,
    ensures
        r@ == issue_flavor_of(predicate@),
        r@.len() == 32,
{
    let mut t = merlin::Transcript::new(b"ZkVM.issue");
    t.append_message(b"predicate", predicate.as_slice());
    let mut buf = [0u8; 64];
    t.challenge_bytes(b"flavor", &mut buf);
    Scalar::from_bytes_mod_order_wide(&buf).to_bytes().to_vec()
}

/// Relies on merlin's `Transcript`: the 32 challenge bytes are a
/// function of the committed txid and output bytes. A committed
/// message must fit a 32-bit length.
#[verifier::external_body]
pub(crate) fn utxo_hash(txid: &Vec<u8>, output: &Vec<u8>) -> (r: Vec<u8>)
    requires
        txid@.len() < 0x1_0000_0000,
        output@.len() < 0x1_0000_0000,
    ensures
        r@ == utxo_hash_of(txid@, output@),
        r@.len() == 32,
{
    let mut t = merlin::Transcript::new(b"ZkVM.utxo");
    t.append_message(b"txid", txid.as_slice());
    t.append_message(b"output", output.as_slice());
    let mut buf = [0u8; 32];
    t.challenge_bytes(b"id", &mut buf);
    buf.to_vec()
}

/// Relies on merlin's `Transcript`: each entry is committed as one
/// message and the 32 challenge bytes are a function of the committed
/// sequence alone. A committed message must fit a 32-bit length.
#[verifier::external_body]
pub(crate) fn txid_hash(entries: &Vec<Vec<u8>>) -> (r: Vec<u8>)
    requires
        forall|i: int| 0 <= i < entries@.len() ==> (#[trigger] entries@[i])@.len() <= 0xFFFF_FFFF,
    ensures
        r@ == txid_hash_of(entries@.map_values(|e: Vec<u8>| e@)),
        r@.len() == 32,
{
    let mut t = merlin::Transcript::new(b"ZkVM.txid");
    for e in entries.iter() {
        t.append_message(b"entry", e.as_slice());
    }
    let mut buf = [0u8; 32];
    t.challenge_bytes(b"id", &mut buf);
    buf.to_vec()
}

/// The view of a term list as plain byte sequences.
pub open spec fn terms_view(terms: Seq<(Vec<u8>, Vec<u8>)>) -> Seq<(Seq<u8>, Seq<u8>)> {
    terms.map_values(|t: (Vec<u8>, Vec<u8>)| (t.0@, t.1@))
}

/// Relies on curve25519_dalek: canonical scalar decoding, point
/// decompression and vartime multiscalar multiplication decide whether
/// the combination equals the identity.
#[verifier::external_body]
pub(crate) fn eval_point_terms(terms: &Vec<(Vec<u8>, Vec<u8>)>) -> (r: bool)
    requires
        forall|i: int|
            0 <= i < terms@.len() ==> (#[trigger] terms@[i]).0@.len() == 32 && terms@[i].1@.len()
                == 32,
    ensures
        r == point_terms_hold(terms_view(terms@)),
{
    let mut scalars: Vec<Scalar> = Vec::new();
    let mut points: Vec<RistrettoPoint> = Vec::new();
    for (s, p) in terms.iter() {
        let sc: Option<Scalar> =
            Option::from(Scalar::from_canonical_bytes(s.as_slice().try_into().unwrap()));
        let pt = CompressedRistretto::from_slice(p.as_slice()).unwrap().decompress();
        match (sc, pt) {
            (Some(sc), Some(pt)) => {
                scalars.push(sc);
                points.push(pt);
            },
            _ => return false,
        }
    }
    RistrettoPoint::vartime_multiscalar_mul(scalars.iter(), points.iter()).is_identity()
}

/// Relies on bulletproofs' `r1cs::Verifier`: checks the constraint
/// system proof over a fresh domain-separated transcript, with no
/// high-level commitments attached. Generators built for zero
/// parties hold no generator share at all and `verify` would index
/// past it; they can validate nothing, so the check reports failure.
#[verifier::external_body]
pub(crate) fn r1cs_proof_verifies(
    proof: &bulletproofs::r1cs::R1CSProof,
    bp_gens: &bulletproofs::BulletproofGens,
) -> (r: bool) {
    if bp_gens.party_capacity < 1 {
        return false;
    }
    let mut t = merlin::Transcript::new(b"ZkVM.r1cs");
    let verifier = bulletproofs::r1cs::Verifier::new(&mut t);
    let pc_gens = bulletproofs::PedersenGens::default();
    verifier.verify(proof, &pc_gens, bp_gens).is_ok()
}

} // verus!
