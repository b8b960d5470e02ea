//! The fixed hash and the signature scheme, behind trusted wrappers.
//!
//! Asset ids come from a 128-bit BLAKE2b digest of the descriptor encoding;
//! withdrawal batches and key rotations are authenticated by an ECDSA
//! signature over a Keccak-256 digest.  What those primitives return is a
//! function of their input bytes alone, so each result is given an
//! uninterpreted name that the callers' contracts are stated over.

use vstd::prelude::*;

verus! {

/// The 128-bit BLAKE2b digest of `data`, read as a big-endian integer.
pub uninterp spec fn blake2b_128_of(data: Seq<u8>) -> u128;

/// The 32-byte Keccak-256 digest of `data`.
pub uninterp spec fn keccak_256_of(data: Seq<u8>) -> Seq<u8>;

/// The 64-byte uncompressed secp256k1 public key recovered from a 65-byte
/// recoverable ECDSA signature over a 32-byte message digest, or nothing if
/// the signature is invalid.
pub uninterp spec fn ecdsa_recover_of(signature: Seq<u8>, message: Seq<u8>) -> Option<Seq<u8>>;

/// Relies on blake2's `Blake2b` with a 16-byte output: the digest depends on
/// the input bytes alone and is returned here as a big-endian integer.
#[verifier::external_body]
pub(crate) fn blake2b_128(data: &Vec<u8>) -> (r: u128)
    ensures
        r == blake2b_128_of(data@),
{
    let mut hasher = <blake2::Blake2b<blake2::digest::consts::U16> as blake2::Digest>::new();
    blake2::Digest::update(&mut hasher, data.as_slice());
    u128::from_be_bytes(blake2::Digest::finalize(hasher).into())
}

/// Relies on sha3's `Keccak256`: a 32-byte digest that depends on the input
/// bytes alone.
#[verifier::external_body]
pub(crate) fn keccak_256(data: &Vec<u8>) -> (r: Vec<u8>)
    ensures
        r@ == keccak_256_of(data@),
        r@.len() == 32,
{
    <sha3::Keccak256 as sha3::Digest>::digest(data.as_slice()).to_vec()
}

/// Relies on libsecp256k1's `recover`: public-key recovery is deterministic
/// in the signature and the message, and a recovered key serializes to 65
/// bytes whose tag byte is stripped here.  The last signature byte is the
/// recovery id.
#[verifier::external_body]
pub(crate) fn ecdsa_recover(signature: &Vec<u8>, message: &Vec<u8>) -> (r: Option<Vec<u8>>)
    requires
        signature@.len() == 65,
        message@.len() == 32,
    ensures
        match r {
            Some(pk) => ecdsa_recover_of(signature@, message@) == Some(pk@) && pk@.len() == 64,
            None => ecdsa_recover_of(signature@, message@) is None,
        },
{
    let rid = match libsecp256k1::RecoveryId::parse(signature[64]) {
        Ok(rid) => rid,
        Err(_) => return None,
    };
    let sig = match libsecp256k1::Signature::parse_standard_slice(&signature[..64]) {
        Ok(sig) => sig,
        Err(_) => return None,
    };
    let msg = libsecp256k1::Message::parse_slice(&message[..]).ok()?;
    match libsecp256k1::recover(&msg, &sig, &rid) {
        Ok(pk) => Some(pk.serialize()[1..].to_vec()),
        Err(_) => None,
    }
}

/// Byte-wise equality of two byte vectors.
pub fn bytes_eq(a: &Vec<u8>, b: &Vec<u8>) -> (r: bool)
    ensures
        r == (a@ == b@),
{
    if a.len() != b.len() {
        return false;
    }
    let n = a.len();
    let mut i: usize = 0;
    while i < n
        invariant
            n == a.len() == b.len(),
            0 <= i <= n,
            forall|k: int| 0 <= k < i ==> a@[k] == b@[k],
        decreases n - i,
    {
        if a[i] != b[i] {
            return false;
        }
        i = i + 1;
    }
    proof {
        assert(a@ =~= b@);
    }
    true
}

/// Whether `signature` recovers to exactly `public_key` over the 32-byte
/// digest `payload_hash`.
pub fn verify_ecdsa_prehashed(signature: &Vec<u8>, public_key: &Vec<u8>, payload_hash: &Vec<u8>) -> (
    r: bool)
    requires
        signature@.len() == 65,
        payload_hash@.len() == 32,
    ensures
        r == (ecdsa_recover_of(signature@, payload_hash@) == Some(public_key@)),
{
    match ecdsa_recover(signature, payload_hash) {
        Some(pk) => bytes_eq(&pk, public_key),
        None => false,
    }
}

} // verus!
