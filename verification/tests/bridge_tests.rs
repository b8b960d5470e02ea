use asset_bridge::bridge::BridgeState;
use asset_bridge::encoding::encode_schedule_payload;
use asset_bridge::ledger::InMemoryLedger;
use asset_bridge::location::{AssetDescriptor, Junction, Location};
use asset_bridge::withdrawal::ScheduleRequest;
use asset_bridge::Error;

const NETWORK_ID: u8 = 1;
const PARA_ID: u32 = 2040;
const NATIVE_ASSET_ID: u128 = 1;
const EXECUTION_DELAY: u64 = 3;

fn bridge() -> BridgeState {
    BridgeState::new(NETWORK_ID, PARA_ID, NATIVE_ASSET_ID, EXECUTION_DELAY)
}

fn secret_key() -> libsecp256k1::SecretKey {
    libsecp256k1::SecretKey::parse(&[0x11; 32]).unwrap()
}

fn public_key_bytes(sk: &libsecp256k1::SecretKey) -> Vec<u8> {
    libsecp256k1::PublicKey::from_secret_key(sk).serialize()[1..].to_vec()
}

fn sign_digest(digest: &[u8; 32], sk: &libsecp256k1::SecretKey) -> Vec<u8> {
    let (sig, rid) = libsecp256k1::sign(&libsecp256k1::Message::parse(digest), sk);
    let mut out = sig.serialize().to_vec();
    out.push(rid.serialize());
    out
}

fn sign_batch(requests: &Vec<ScheduleRequest>, nonce: u32, sk: &libsecp256k1::SecretKey) -> Vec<u8> {
    let mut message = encode_schedule_payload(requests);
    message.extend_from_slice(&nonce.to_le_bytes());
    let digest: [u8; 32] = <sha3::Keccak256 as sha3::Digest>::digest(&message).into();
    sign_digest(&digest, sk)
}

fn sibling_asset(para: u32, index: u128) -> AssetDescriptor {
    AssetDescriptor {
        network: NETWORK_ID,
        location: Location {
            parents: 1,
            interior: vec![Junction::Parachain(para), Junction::GeneralIndex(index)],
        },
    }
}

fn local_destination(account: u64) -> Location {
    Location {
        parents: 0,
        interior: vec![Junction::AccountIndex64(account)],
    }
}

fn request(asset: AssetDescriptor, amount: u128, destination: Location) -> ScheduleRequest {
    ScheduleRequest {
        asset,
        amount,
        destination,
        extra: Vec::new(),
    }
}

fn pending_count(bridge: &BridgeState, block: u64) -> usize {
    bridge
        .queue
        .pending
        .iter()
        .filter(|b| b.block == block)
        .map(|b| b.items.len())
        .sum()
}

fn failed_count(bridge: &BridgeState, block: u64) -> usize {
    bridge
        .queue
        .failed
        .iter()
        .filter(|b| b.block == block)
        .map(|b| b.items.len())
        .sum()
}

#[test]
fn test_whitelist_token_returns_ok() {
    let mut bridge = bridge();
    let token = 100;
    assert!(bridge.whitelist_token(token).is_ok());
    assert!(bridge.check_whitelisted_token(token));
}

#[test]
fn test_whitelist_token_returns_token_is_already_whitelisted() {
    let mut bridge = bridge();
    let token = 100;
    assert!(bridge.whitelist_token(token).is_ok());
    assert_eq!(
        bridge.whitelist_token(token),
        Err(Error::TokenIsAlreadyWhitelisted)
    );
}

#[test]
fn signed_batch_is_scheduled_after_the_delay() {
    let sk = secret_key();
    let mut bridge = bridge();
    bridge.set_thea_key(public_key_bytes(&sk)).unwrap();
    let requests = vec![
        request(sibling_asset(2004, 7), 50, local_destination(42)),
        request(sibling_asset(2004, 8), 60, local_destination(43)),
    ];
    let signature = sign_batch(&requests, 0, &sk);
    assert!(bridge.withdraw_asset(requests, 0, &signature).is_ok());
    // Scheduled at current block + execution delay.
    assert_eq!(pending_count(&bridge, EXECUTION_DELAY), 2);
    // Both assets were registered on the way in.
    assert_eq!(bridge.locator.table_len(), 2);
}

#[test]
fn replayed_batch_fails_with_stale_nonce() {
    let sk = secret_key();
    let mut bridge = bridge();
    bridge.set_thea_key(public_key_bytes(&sk)).unwrap();
    let requests = vec![request(sibling_asset(2004, 7), 50, local_destination(42))];
    let signature = sign_batch(&requests, 0, &sk);
    let replay = vec![request(sibling_asset(2004, 7), 50, local_destination(42))];
    assert!(bridge.withdraw_asset(requests, 0, &signature).is_ok());
    assert_eq!(
        bridge.withdraw_asset(replay, 0, &signature),
        Err(Error::StaleNonce)
    );
    assert_eq!(pending_count(&bridge, EXECUTION_DELAY), 1);
}

#[test]
fn unsigned_batch_changes_nothing() {
    let sk = secret_key();
    let mut bridge = bridge();
    bridge.set_thea_key(public_key_bytes(&sk)).unwrap();
    let requests = vec![request(sibling_asset(2004, 7), 50, local_destination(42))];
    assert_eq!(
        bridge.withdraw_asset(requests, 0, &vec![0u8; 65]),
        Err(Error::BadSignature)
    );
    assert_eq!(pending_count(&bridge, EXECUTION_DELAY), 0);
    assert_eq!(bridge.locator.table_len(), 0);
    assert_eq!(bridge.auth.next_nonce, 0);
}

#[test]
fn batch_without_key_fails_with_no_key_set() {
    let mut bridge = bridge();
    let requests = vec![request(sibling_asset(2004, 7), 50, local_destination(42))];
    assert_eq!(
        bridge.withdraw_asset(requests, 0, &vec![0u8; 65]),
        Err(Error::NoKeySet)
    );
}

#[test]
fn oversized_batch_fails_whole_with_queue_full() {
    let sk = secret_key();
    let mut bridge = bridge();
    bridge.set_thea_key(public_key_bytes(&sk)).unwrap();
    let mut requests = Vec::new();
    for i in 0..101 {
        requests.push(request(sibling_asset(2004, i), 1, local_destination(42)));
    }
    let signature = sign_batch(&requests, 0, &sk);
    assert_eq!(
        bridge.withdraw_asset(requests, 0, &signature),
        Err(Error::QueueFull)
    );
    // No partial insertion: the bucket is untouched, though the nonce was
    // consumed by the successful authentication.
    assert_eq!(pending_count(&bridge, EXECUTION_DELAY), 0);
    assert_eq!(bridge.auth.next_nonce, 1);
}

#[test]
fn empty_batch_is_accepted_and_consumes_the_nonce() {
    let sk = secret_key();
    let mut bridge = bridge();
    bridge.set_thea_key(public_key_bytes(&sk)).unwrap();
    let requests: Vec<ScheduleRequest> = Vec::new();
    let signature = sign_batch(&requests, 0, &sk);
    assert!(bridge.withdraw_asset(requests, 0, &signature).is_ok());
    assert_eq!(pending_count(&bridge, EXECUTION_DELAY), 0);
    assert_eq!(bridge.auth.next_nonce, 1);
}

#[test]
fn veto_window_scenario() {
    // Schedule for block N = 3; veto at block 2 succeeds and the entry lands
    // in the failed bucket after the drain at block 3; a veto at block 4
    // fails with IndexNotFound.
    let sk = secret_key();
    let mut bridge = bridge();
    let mut ledger = InMemoryLedger::new();
    bridge.set_thea_key(public_key_bytes(&sk)).unwrap();
    bridge.council.active.push(9);
    let requests = vec![request(sibling_asset(2004, 7), 50, local_destination(42))];
    let signature = sign_batch(&requests, 0, &sk);
    assert!(bridge.withdraw_asset(requests, 0, &signature).is_ok());
    let n = EXECUTION_DELAY;
    bridge.advance_to(1, &mut ledger);
    bridge.advance_to(2, &mut ledger);
    assert!(bridge.delete_transaction(9, n, 0).is_ok());
    bridge.advance_to(3, &mut ledger);
    assert_eq!(pending_count(&bridge, n), 0);
    assert_eq!(failed_count(&bridge, n), 1);
    assert_eq!(ledger.minted_len(), 0);
    assert_eq!(bridge.delete_transaction(9, n, 0), Err(Error::IndexNotFound));
}

#[test]
fn drained_local_deposit_reaches_the_ledger() {
    let sk = secret_key();
    let mut bridge = bridge();
    let mut ledger = InMemoryLedger::new();
    bridge.set_thea_key(public_key_bytes(&sk)).unwrap();
    let asset = sibling_asset(2004, 7);
    let requests = vec![request(asset.clone(), 50, local_destination(42))];
    let signature = sign_batch(&requests, 0, &sk);
    assert!(bridge.withdraw_asset(requests, 0, &signature).is_ok());
    let asset_id = bridge.locator.convert_location_to_asset_id(&asset);
    bridge.advance_to(1, &mut ledger);
    bridge.advance_to(2, &mut ledger);
    bridge.advance_to(3, &mut ledger);
    assert_eq!(ledger.minted, vec![(asset_id, 42, 50)]);
    assert_eq!(pending_count(&bridge, 3), 0);
    assert_eq!(failed_count(&bridge, 3), 0);
}

#[test]
fn delete_transaction_requires_council_membership() {
    let mut bridge = bridge();
    assert_eq!(
        bridge.delete_transaction(9, 3, 0),
        Err(Error::NotCouncilMember)
    );
}

#[test]
fn rotated_key_takes_over_signing() {
    let sk = secret_key();
    let new_sk = libsecp256k1::SecretKey::parse(&[0x22; 32]).unwrap();
    let mut bridge = bridge();
    bridge.set_thea_key(public_key_bytes(&sk)).unwrap();
    let new_key = public_key_bytes(&new_sk);
    let digest: [u8; 32] = <sha3::Keccak256 as sha3::Digest>::digest(&new_key).into();
    let rotation = sign_digest(&digest, &sk);
    assert!(bridge.change_thea_key(new_key, &rotation).is_ok());
    // A batch signed by the old key is now rejected; the new key signs.
    let requests = vec![request(sibling_asset(2004, 7), 50, local_destination(42))];
    let old_signature = sign_batch(&requests, 0, &sk);
    let new_signature = sign_batch(&requests, 0, &new_sk);
    let requests_again = vec![request(sibling_asset(2004, 7), 50, local_destination(42))];
    assert_eq!(
        bridge.withdraw_asset(requests, 0, &old_signature),
        Err(Error::BadSignature)
    );
    assert!(bridge
        .withdraw_asset(requests_again, 0, &new_signature)
        .is_ok());
}
