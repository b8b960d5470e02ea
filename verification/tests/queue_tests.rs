use asset_bridge::ledger::InMemoryLedger;
use asset_bridge::location::{AssetDescriptor, Junction, Location};
use asset_bridge::locator::AssetLocator;
use asset_bridge::queue::WithdrawalQueue;
use asset_bridge::withdrawal::WithdrawalRequest;
use asset_bridge::Error;

const NETWORK_ID: u8 = 1;
const PARA_ID: u32 = 2040;
const NATIVE_ASSET_ID: u128 = 1;

fn locator() -> AssetLocator {
    AssetLocator::new(NETWORK_ID, PARA_ID, NATIVE_ASSET_ID)
}

fn sibling_asset(para: u32, index: u128) -> AssetDescriptor {
    AssetDescriptor {
        network: NETWORK_ID,
        location: Location {
            parents: 1,
            interior: vec![Junction::Parachain(para), Junction::GeneralIndex(index)],
        },
    }
}

fn local_destination(account: u64) -> Location {
    Location {
        parents: 0,
        interior: vec![Junction::AccountIndex64(account)],
    }
}

fn foreign_destination(para: u32, account: u64) -> Location {
    Location {
        parents: 1,
        interior: vec![
            Junction::Parachain(para),
            Junction::AccountIndex64(account),
        ],
    }
}

fn entry(asset_id: u128, amount: u128, destination: Location) -> WithdrawalRequest {
    WithdrawalRequest {
        asset_id,
        amount,
        destination,
        is_blocked: false,
        extra: Vec::new(),
    }
}

fn pending_items<'q>(queue: &'q WithdrawalQueue, block: u64) -> Vec<&'q WithdrawalRequest> {
    queue
        .pending
        .iter()
        .filter(|b| b.block == block)
        .flat_map(|b| b.items.iter())
        .collect()
}

fn failed_items<'q>(queue: &'q WithdrawalQueue, block: u64) -> Vec<&'q WithdrawalRequest> {
    queue
        .failed
        .iter()
        .filter(|b| b.block == block)
        .flat_map(|b| b.items.iter())
        .collect()
}

#[test]
fn veto_before_drain_routes_the_entry_to_failed() {
    let loc = locator();
    let mut queue = WithdrawalQueue::new(2);
    let mut ledger = InMemoryLedger::new();
    let block = 5;
    queue
        .insert_pending_withdrawal(block, entry(NATIVE_ASSET_ID, 10, local_destination(42)))
        .unwrap();
    // Veto before the block is drained succeeds...
    assert!(queue.veto(block, 0).is_ok());
    assert!(pending_items(&queue, block)[0].is_blocked);
    // ...and the drain routes the blocked entry into the failed bucket.
    queue.drain_block(&loc, &mut ledger, block);
    assert!(pending_items(&queue, block).is_empty());
    let failed = failed_items(&queue, block);
    assert_eq!(failed.len(), 1);
    assert!(failed[0].is_blocked);
    assert_eq!(ledger.minted_len(), 0);
    // A veto after the drain finds nothing.
    assert_eq!(queue.veto(block, 0), Err(Error::IndexNotFound));
}

#[test]
fn veto_of_missing_index_returns_index_not_found() {
    let mut queue = WithdrawalQueue::new(2);
    assert_eq!(queue.veto(7, 0), Err(Error::IndexNotFound));
    queue
        .insert_pending_withdrawal(7, entry(NATIVE_ASSET_ID, 1, local_destination(1)))
        .unwrap();
    assert_eq!(queue.veto(7, 1), Err(Error::IndexNotFound));
    assert!(queue.veto(7, 0).is_ok());
}

#[test]
fn one_failing_transfer_does_not_abort_its_siblings() {
    // Two outbound entries of the same asset; the reserve covers only the
    // second-scheduled one (which is drained first, from the back): exactly
    // one entry lands in the failed bucket and the pending bucket empties.
    let mut loc = locator();
    let d = sibling_asset(2004, 7);
    let asset_id = loc.resolve_or_register(&d);
    let mut queue = WithdrawalQueue::new(2);
    let mut ledger = InMemoryLedger::new();
    ledger.fund(asset_id, 3);
    let block = 9;
    queue
        .insert_pending_withdrawal(block, entry(asset_id, 5, foreign_destination(2004, 8)))
        .unwrap();
    queue
        .insert_pending_withdrawal(block, entry(asset_id, 3, foreign_destination(2004, 9)))
        .unwrap();
    queue.drain_block(&loc, &mut ledger, block);
    assert!(pending_items(&queue, block).is_empty());
    let failed = failed_items(&queue, block);
    assert_eq!(failed.len(), 1);
    assert_eq!(failed[0].amount, 5);
    // The reserve was fully consumed by the successful transfer.
    assert_eq!(ledger.reserves, vec![(asset_id, 0)]);
}

#[test]
fn drain_mints_into_local_destinations() {
    let loc = locator();
    let mut queue = WithdrawalQueue::new(2);
    let mut ledger = InMemoryLedger::new();
    queue
        .insert_pending_withdrawal(3, entry(NATIVE_ASSET_ID, 25, local_destination(42)))
        .unwrap();
    queue.drain_block(&loc, &mut ledger, 3);
    assert!(pending_items(&queue, 3).is_empty());
    assert!(failed_items(&queue, 3).is_empty());
    assert_eq!(ledger.minted, vec![(NATIVE_ASSET_ID, 42, 25)]);
}

#[test]
fn drain_fails_entries_it_cannot_resolve() {
    let loc = locator();
    let mut queue = WithdrawalQueue::new(2);
    let mut ledger = InMemoryLedger::new();
    // A local destination that names no account.
    queue
        .insert_pending_withdrawal(
            3,
            entry(
                NATIVE_ASSET_ID,
                1,
                Location {
                    parents: 0,
                    interior: vec![Junction::Parachain(2004)],
                },
            ),
        )
        .unwrap();
    // An outbound asset id that no descriptor resolves back from.
    queue
        .insert_pending_withdrawal(3, entry(0xdead_beef, 1, foreign_destination(2004, 8)))
        .unwrap();
    queue.drain_block(&loc, &mut ledger, 3);
    assert_eq!(failed_items(&queue, 3).len(), 2);
    assert_eq!(ledger.minted_len(), 0);
}

#[test]
fn drain_of_an_empty_block_leaves_an_empty_failed_bucket() {
    let loc = locator();
    let mut queue = WithdrawalQueue::new(2);
    let mut ledger = InMemoryLedger::new();
    queue.drain_block(&loc, &mut ledger, 11);
    assert!(pending_items(&queue, 11).is_empty());
    assert!(failed_items(&queue, 11).is_empty());
}

#[test]
fn bucket_capacity_is_enforced() {
    let mut queue = WithdrawalQueue::new(2);
    for _ in 0..100 {
        assert!(queue
            .insert_pending_withdrawal(4, entry(NATIVE_ASSET_ID, 1, local_destination(1)))
            .is_ok());
    }
    assert_eq!(
        queue.insert_pending_withdrawal(4, entry(NATIVE_ASSET_ID, 1, local_destination(1))),
        Err(Error::QueueFull)
    );
    assert_eq!(pending_items(&queue, 4).len(), 100);
    // Another block's bucket is unaffected.
    assert!(queue
        .insert_pending_withdrawal(5, entry(NATIVE_ASSET_ID, 1, local_destination(1)))
        .is_ok());
}
