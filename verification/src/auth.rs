//! The rotating relay key and the strictly increasing nonce.
//!
//! A single ECDSA public key authorizes withdrawal batches.  It is set once
//! by a privileged call, thereafter replaced only by a rotation signed under
//! the current key.  Every batch carries the next expected nonce; the nonce
//! is consumed exactly once per accepted call, so an accepted batch cannot be
//! replayed.

use vstd::prelude::*;

use crate::digests::{ecdsa_recover_of, keccak_256, keccak_256_of, verify_ecdsa_prehashed};
use crate::encoding::{push_le_u32, spec_le_u32};
use crate::location::copy_bytes;
use crate::Error;

verus! {

/// The digest a withdrawal batch is signed over: the canonical payload bytes
/// followed by the four little-endian nonce bytes, hashed.
pub open spec fn spec_signing_digest(payload: Seq<u8>, nonce: u32) -> Seq<u8> {
    keccak_256_of(payload + spec_le_u32(nonce))
}

/// The digest a key rotation is signed over: the 64 raw bytes of the new
/// key, hashed.
pub open spec fn spec_rotation_digest(new_key: Seq<u8>) -> Seq<u8> {
    keccak_256_of(new_key)
}

/// The relay authenticator: the active key, if any, and the next expected
/// nonce.
pub struct RelayKeyState {
    /// The active 64-byte uncompressed public key, once set.
    pub key: Option<Vec<u8>>,
    /// The nonce the next accepted submission must carry.
    pub next_nonce: u32,
}

impl RelayKeyState {
    /// The active key as a mathematical value.
    pub open spec fn spec_key(self) -> Option<Seq<u8>> {
        match self.key {
            Some(k) => Some(k@),
            None => None,
        }
    }

    /// Well-formed: a configured key has exactly 64 bytes.
    pub open spec fn wf(self) -> bool {
        match self.spec_key() {
            Some(k) => k.len() == 64,
            None => true,
        }
    }

    /// Whether a submission authenticates against this state: a key is set,
    /// the nonce is the expected one, and the signature recovers to the key
    /// over the signing digest.
    pub open spec fn spec_auth_ok(self, payload: Seq<u8>, nonce: u32, signature: Seq<u8>) -> bool {
        &&& self.spec_key() is Some
        &&& nonce == self.next_nonce
        &&& signature.len() == 65
        &&& ecdsa_recover_of(signature, spec_signing_digest(payload, nonce)) == Some(
            self.spec_key().unwrap(),
        )
    }

    /// An authenticator with no key configured and nonce zero.
    pub fn new() -> (r: RelayKeyState)
        ensures
            r.wf(),
            r.spec_key() is None,
            r.next_nonce == 0,
    {
        RelayKeyState { key: None, next_nonce: 0 }
    }

    /// Bootstrap: installs the first relay key and resets the nonce.
    ///
    /// Only valid while no key is configured; afterwards the key can change
    /// only through [`RelayKeyState::rotate_key`].  The host must allow only
    /// privileged callers through to this operation.
    pub fn set_key(&mut self, new_key: Vec<u8>) -> (r: Result<(), Error>)
        requires
            old(self).wf(),
            new_key@.len() == 64,
        ensures
            final(self).wf(),
            match r {
                Ok(()) => {
                    &&& old(self).spec_key() is None
                    &&& final(self).spec_key() == Some(new_key@)
                    &&& final(self).next_nonce == 0
                },
                Err(e) => {
                    &&& e == Error::KeyAlreadySet
                    &&& old(self).spec_key() is Some
                    &&& final(self).spec_key() == old(self).spec_key()
                    &&& final(self).next_nonce == old(self).next_nonce
                },
            },
    {
        match &self.key {
            Some(_) => Err(Error::KeyAlreadySet),
            None => {
                self.key = Some(new_key);
                self.next_nonce = 0;
                Ok(())
            },
        }
    }

    /// Rotation: replaces the key with `new_key` iff `signature` recovers to
    /// the *current* key over the rotation digest of `new_key`.  The nonce is
    /// left untouched.
    pub fn rotate_key(&mut self, new_key: Vec<u8>, signature: &Vec<u8>) -> (r: Result<(), Error>)
        requires
            old(self).wf(),
            new_key@.len() == 64,
        ensures
            final(self).wf(),
            final(self).next_nonce == old(self).next_nonce,
            match r {
                Ok(()) => {
                    &&& old(self).spec_key() is Some
                    &&& signature@.len() == 65
                    &&& ecdsa_recover_of(signature@, spec_rotation_digest(new_key@)) == Some(
                        old(self).spec_key().unwrap(),
                    )
                    &&& final(self).spec_key() == Some(new_key@)
                },
                Err(e) => {
                    &&& final(self).spec_key() == old(self).spec_key()
                    &&& (if old(self).spec_key() is None {
                        e == Error::NoKeySet
                    } else {
                        &&& e == Error::BadSignature
                        &&& !(signature@.len() == 65 && ecdsa_recover_of(
                            signature@,
                            spec_rotation_digest(new_key@),
                        ) == Some(old(self).spec_key().unwrap()))
                    })
                },
            },
    {
        let verified = match &self.key {
            None => {
                return Err(Error::NoKeySet);
            },
            Some(current) => {
                if signature.len() != 65 {
                    false
                } else {
                    let digest = keccak_256(&new_key);
                    verify_ecdsa_prehashed(signature, current, &digest)
                }
            },
        };
        if verified {
            self.key = Some(new_key);
            Ok(())
        } else {
            Err(Error::BadSignature)
        }
    }

    /// Authenticates one submission and consumes the nonce.
    ///
    /// Fails with [`Error::NoKeySet`] while no key is configured, with
    /// [`Error::StaleNonce`] when `nonce` is not the next expected one, and
    /// with [`Error::BadSignature`] when the signature does not recover to
    /// the current key over the signing digest; any failure leaves the state
    /// untouched.  On success the next expected nonce grows by one,
    /// saturating, so the same signed submission is rejected afterwards.
    pub fn verify_and_consume(&mut self, payload: &Vec<u8>, nonce: u32, signature: &Vec<u8>) -> (r:
        Result<(), Error>)
        requires
            old(self).wf(),
        ensures
            final(self).wf(),
            final(self).spec_key() == old(self).spec_key(),
            match r {
                Ok(()) => {
                    &&& old(self).spec_auth_ok(payload@, nonce, signature@)
                    &&& final(self).next_nonce == old(self).next_nonce.saturating_add(1)
                },
                Err(e) => {
                    &&& final(self).next_nonce == old(self).next_nonce
                    &&& (if old(self).spec_key() is None {
                        e == Error::NoKeySet
                    } else if nonce != old(self).next_nonce {
                        e == Error::StaleNonce
                    } else {
                        &&& e == Error::BadSignature
                        &&& !old(self).spec_auth_ok(payload@, nonce, signature@)
                    })
                },
            },
    {
        let verified = match &self.key {
            None => {
                return Err(Error::NoKeySet);
            },
            Some(current) => {
                if nonce != self.next_nonce {
                    return Err(Error::StaleNonce);
                }
                if signature.len() != 65 {
                    false
                } else {
                    let mut message = copy_bytes(payload);
                    push_le_u32(&mut message, nonce);
                    let digest = keccak_256(&message);
                    verify_ecdsa_prehashed(signature, current, &digest)
                }
            },
        };
        if verified {
            self.next_nonce = self.next_nonce.saturating_add(1);
            Ok(())
        } else {
            Err(Error::BadSignature)
        }
    }
}

/// A consumed nonce rejects replay: if a submission authenticates against
/// `s0` and the accepted call moves the state to `s1`, the identical
/// submission no longer authenticates, and its nonce is stale — exactly the
/// case in which `verify_and_consume` returns `StaleNonce`.
pub proof fn lemma_nonce_replay_rejected(
    s0: RelayKeyState,
    s1: RelayKeyState,
    payload: Seq<u8>,
    nonce: u32,
    signature: Seq<u8>,
)
    requires
        s0.spec_auth_ok(payload, nonce, signature),
        nonce < u32::MAX,
        s1.spec_key() == s0.spec_key(),
        s1.next_nonce == s0.next_nonce.saturating_add(1),
    ensures
        !s1.spec_auth_ok(payload, nonce, signature),
        nonce != s1.next_nonce,
        s1.spec_key() is Some,
{
}

} // verus!
