use asset_bridge::auth::RelayKeyState;
use asset_bridge::Error;

fn secret_key() -> libsecp256k1::SecretKey {
    libsecp256k1::SecretKey::parse(&[0x11; 32]).unwrap()
}

fn other_secret_key() -> libsecp256k1::SecretKey {
    libsecp256k1::SecretKey::parse(&[0x22; 32]).unwrap()
}

fn public_key_bytes(sk: &libsecp256k1::SecretKey) -> Vec<u8> {
    libsecp256k1::PublicKey::from_secret_key(sk).serialize()[1..].to_vec()
}

fn keccak(data: &[u8]) -> [u8; 32] {
    <sha3::Keccak256 as sha3::Digest>::digest(data).into()
}

fn sign_digest(digest: &[u8; 32], sk: &libsecp256k1::SecretKey) -> Vec<u8> {
    let (sig, rid) = libsecp256k1::sign(&libsecp256k1::Message::parse(digest), sk);
    let mut out = sig.serialize().to_vec();
    out.push(rid.serialize());
    out
}

/// The digest a batch is signed over: keccak of the payload bytes followed
/// by the four little-endian nonce bytes.
fn signing_digest(payload: &[u8], nonce: u32) -> [u8; 32] {
    let mut message = payload.to_vec();
    message.extend_from_slice(&nonce.to_le_bytes());
    keccak(&message)
}

#[test]
fn set_key_bootstraps_once() {
    let mut auth = RelayKeyState::new();
    let key = public_key_bytes(&secret_key());
    assert!(auth.set_key(key.clone()).is_ok());
    assert_eq!(auth.key, Some(key));
    assert_eq!(auth.next_nonce, 0);
    let other = public_key_bytes(&other_secret_key());
    assert_eq!(auth.set_key(other), Err(Error::KeyAlreadySet));
}

#[test]
fn verify_without_key_returns_no_key_set() {
    let mut auth = RelayKeyState::new();
    let payload = vec![1, 2, 3];
    let signature = vec![0u8; 65];
    assert_eq!(
        auth.verify_and_consume(&payload, 0, &signature),
        Err(Error::NoKeySet)
    );
}

#[test]
fn accepted_submission_consumes_the_nonce() {
    let sk = secret_key();
    let mut auth = RelayKeyState::new();
    auth.set_key(public_key_bytes(&sk)).unwrap();
    let payload = vec![9, 9, 9];
    let signature = sign_digest(&signing_digest(&payload, 0), &sk);
    assert!(auth.verify_and_consume(&payload, 0, &signature).is_ok());
    assert_eq!(auth.next_nonce, 1);
    // Replaying the identical signed submission fails on the nonce, not the
    // signature.
    assert_eq!(
        auth.verify_and_consume(&payload, 0, &signature),
        Err(Error::StaleNonce)
    );
    assert_eq!(auth.next_nonce, 1);
}

#[test]
fn stale_and_future_nonces_are_rejected() {
    let sk = secret_key();
    let mut auth = RelayKeyState::new();
    auth.set_key(public_key_bytes(&sk)).unwrap();
    let payload = vec![5];
    let signature = sign_digest(&signing_digest(&payload, 3), &sk);
    assert_eq!(
        auth.verify_and_consume(&payload, 3, &signature),
        Err(Error::StaleNonce)
    );
    assert_eq!(auth.next_nonce, 0);
}

#[test]
fn tampered_payload_is_rejected() {
    let sk = secret_key();
    let mut auth = RelayKeyState::new();
    auth.set_key(public_key_bytes(&sk)).unwrap();
    let payload = vec![1, 2, 3];
    let signature = sign_digest(&signing_digest(&payload, 0), &sk);
    let tampered = vec![1, 2, 4];
    assert_eq!(
        auth.verify_and_consume(&tampered, 0, &signature),
        Err(Error::BadSignature)
    );
    assert_eq!(auth.next_nonce, 0);
    // The untampered payload still goes through afterwards.
    assert!(auth.verify_and_consume(&payload, 0, &signature).is_ok());
}

#[test]
fn foreign_key_signature_is_rejected() {
    let sk = secret_key();
    let mut auth = RelayKeyState::new();
    auth.set_key(public_key_bytes(&sk)).unwrap();
    let payload = vec![1, 2, 3];
    let signature = sign_digest(&signing_digest(&payload, 0), &other_secret_key());
    assert_eq!(
        auth.verify_and_consume(&payload, 0, &signature),
        Err(Error::BadSignature)
    );
}

#[test]
fn malformed_signature_is_rejected() {
    let sk = secret_key();
    let mut auth = RelayKeyState::new();
    auth.set_key(public_key_bytes(&sk)).unwrap();
    let payload = vec![1, 2, 3];
    assert_eq!(
        auth.verify_and_consume(&payload, 0, &vec![0u8; 10]),
        Err(Error::BadSignature)
    );
    // A 65-byte signature with an invalid recovery id is rejected too.
    let mut signature = sign_digest(&signing_digest(&payload, 0), &sk);
    signature[64] = 9;
    assert_eq!(
        auth.verify_and_consume(&payload, 0, &signature),
        Err(Error::BadSignature)
    );
}

#[test]
fn rotate_key_requires_signature_by_current_key() {
    let sk = secret_key();
    let new_sk = other_secret_key();
    let new_key = public_key_bytes(&new_sk);
    let mut auth = RelayKeyState::new();
    assert_eq!(
        auth.rotate_key(new_key.clone(), &vec![0u8; 65]),
        Err(Error::NoKeySet)
    );
    auth.set_key(public_key_bytes(&sk)).unwrap();
    // A rotation is signed over the keccak digest of the new key by the
    // current key.
    let rotation = sign_digest(&keccak(&new_key), &sk);
    assert!(auth.rotate_key(new_key.clone(), &rotation).is_ok());
    assert_eq!(auth.key, Some(new_key.clone()));
    // The nonce is untouched by a rotation.
    assert_eq!(auth.next_nonce, 0);
    // After the rotation only the new key authorizes batches.
    let payload = vec![7];
    let old_signed = sign_digest(&signing_digest(&payload, 0), &sk);
    assert_eq!(
        auth.verify_and_consume(&payload, 0, &old_signed),
        Err(Error::BadSignature)
    );
    let new_signed = sign_digest(&signing_digest(&payload, 0), &new_sk);
    assert!(auth.verify_and_consume(&payload, 0, &new_signed).is_ok());
}

#[test]
fn rotate_key_rejects_signature_by_another_key() {
    let sk = secret_key();
    let new_key = public_key_bytes(&other_secret_key());
    let mut auth = RelayKeyState::new();
    auth.set_key(public_key_bytes(&sk)).unwrap();
    let bad_rotation = sign_digest(&keccak(&new_key), &other_secret_key());
    assert_eq!(
        auth.rotate_key(new_key, &bad_rotation),
        Err(Error::BadSignature)
    );
    assert_eq!(auth.key, Some(public_key_bytes(&sk)));
}
