use asset_bridge::encoding::encode_descriptor;
use asset_bridge::location::{
    get_destination_account, is_parachain_asset, is_polkadex_parachain_destination,
    AssetDescriptor, Junction, Location,
};
use asset_bridge::locator::AssetLocator;

const NETWORK_ID: u8 = 1;
const PARA_ID: u32 = 2040;
const NATIVE_ASSET_ID: u128 = 1;

fn locator() -> AssetLocator {
    AssetLocator::new(NETWORK_ID, PARA_ID, NATIVE_ASSET_ID)
}

fn native_descriptor() -> AssetDescriptor {
    AssetDescriptor {
        network: NETWORK_ID,
        location: Location {
            parents: 1,
            interior: vec![Junction::Parachain(PARA_ID)],
        },
    }
}

fn sibling_asset(para: u32, index: u128) -> AssetDescriptor {
    AssetDescriptor {
        network: NETWORK_ID,
        location: Location {
            parents: 1,
            interior: vec![Junction::Parachain(para), Junction::GeneralIndex(index)],
        },
    }
}

#[test]
fn native_descriptor_resolves_to_reserved_id() {
    let mut loc = locator();
    let id = loc.resolve_or_register(&native_descriptor());
    assert_eq!(id, NATIVE_ASSET_ID);
    // The native mapping is fixed, never registered by hashing.
    assert_eq!(loc.table_len(), 0);
}

#[test]
fn registration_is_idempotent() {
    let mut loc = locator();
    let d = sibling_asset(2004, 7);
    let id1 = loc.resolve_or_register(&d);
    let len_after_first = loc.table_len();
    let id2 = loc.resolve_or_register(&d);
    assert_eq!(id1, id2);
    assert_eq!(loc.table_len(), len_after_first);
    assert_eq!(len_after_first, 1);
}

#[test]
fn round_trip_returns_the_descriptor() {
    let mut loc = locator();
    let d = sibling_asset(2004, 7);
    let id = loc.resolve_or_register(&d);
    assert_eq!(loc.reverse(id), Some(d));
    // The reserved native id round-trips to the well-known descriptor.
    let native_id = loc.resolve_or_register(&native_descriptor());
    assert_eq!(loc.reverse(native_id), Some(native_descriptor()));
}

#[test]
fn reverse_of_unregistered_id_is_not_found() {
    let mut loc = locator();
    assert_eq!(loc.reverse(0xdead_beef), None);
    // A lookup never derives: the table stays empty.
    assert_eq!(loc.table_len(), 0);
    let id = loc.resolve_or_register(&sibling_asset(2004, 7));
    assert_eq!(loc.reverse(id ^ 1), None);
}

#[test]
fn distinct_descriptors_get_distinct_ids() {
    let mut loc = locator();
    let id1 = loc.resolve_or_register(&sibling_asset(2004, 7));
    let id2 = loc.resolve_or_register(&sibling_asset(2004, 8));
    let id3 = loc.resolve_or_register(&sibling_asset(2005, 7));
    assert_ne!(id1, id2);
    assert_ne!(id1, id3);
    assert_ne!(id2, id3);
    assert_ne!(id1, NATIVE_ASSET_ID);
    assert_eq!(loc.table_len(), 3);
}

#[test]
fn derived_id_is_the_blake2b_digest_of_the_encoding() {
    // Cross-check the id derivation against the hash crate directly: the id
    // is the 128-bit BLAKE2b digest of the canonical encoding, big-endian.
    let mut loc = locator();
    let d = sibling_asset(2004, 7);
    let encoded = encode_descriptor(&d);
    let digest =
        <blake2::Blake2b<blake2::digest::consts::U16> as blake2::Digest>::digest(&encoded);
    let expected = u128::from_be_bytes(digest.into());
    assert_eq!(loc.resolve_or_register(&d), expected);
    assert_eq!(loc.convert_location_to_asset_id(&d), expected);
}

#[test]
fn location_predicates_classify_destinations() {
    let local = Location {
        parents: 0,
        interior: vec![Junction::AccountIndex64(42)],
    };
    let foreign = Location {
        parents: 1,
        interior: vec![Junction::Parachain(2004), Junction::AccountIndex64(42)],
    };
    assert!(is_polkadex_parachain_destination(&local));
    assert!(!is_polkadex_parachain_destination(&foreign));
    assert_eq!(get_destination_account(&local), Some(42));
    assert_eq!(get_destination_account(&foreign), None);
    let here = AssetDescriptor {
        network: NETWORK_ID,
        location: Location {
            parents: 0,
            interior: Vec::new(),
        },
    };
    assert!(is_parachain_asset(&here));
    assert!(!is_parachain_asset(&sibling_asset(2004, 7)));
}

#[test]
fn first_registrant_wins() {
    let mut loc = locator();
    let d = sibling_asset(2004, 7);
    let id = loc.resolve_or_register(&d);
    // A second registration of the same id never overwrites the mapping.
    let id_again = loc.resolve_or_register(&d);
    assert_eq!(id, id_again);
    assert_eq!(loc.reverse(id), Some(d));
}
