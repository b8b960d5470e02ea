use asset_bridge::encoding::{encode_descriptor, encode_schedule_payload};
use asset_bridge::location::{AssetDescriptor, Junction, Location};
use asset_bridge::withdrawal::ScheduleRequest;

#[test]
fn descriptor_encoding_exact_bytes() {
    // network 1, one hop up, one parachain junction: tag 0, 2004 = 0x07d4.
    let d = AssetDescriptor {
        network: 1,
        location: Location {
            parents: 1,
            interior: vec![Junction::Parachain(2004)],
        },
    };
    let expected = vec![
        1, // network
        1, // parents
        1, 0, 0, 0, 0, 0, 0, 0, // junction count, little-endian u64
        0, 0xd4, 0x07, 0, 0, // Parachain(2004)
    ];
    assert_eq!(encode_descriptor(&d), expected);
}

#[test]
fn junction_payload_widths() {
    let account = AssetDescriptor {
        network: 0,
        location: Location {
            parents: 0,
            interior: vec![Junction::AccountIndex64(0x0102030405060708)],
        },
    };
    let expected_account = vec![
        0, // network
        0, // parents
        1, 0, 0, 0, 0, 0, 0, 0, // junction count
        1, 8, 7, 6, 5, 4, 3, 2, 1, // AccountIndex64, little-endian u64
    ];
    assert_eq!(encode_descriptor(&account), expected_account);
    let general = AssetDescriptor {
        network: 0,
        location: Location {
            parents: 0,
            interior: vec![Junction::GeneralIndex(0x1_0000_0000_0000_0000)],
        },
    };
    let expected_general = vec![
        0, // network
        0, // parents
        1, 0, 0, 0, 0, 0, 0, 0, // junction count
        2, 0, 0, 0, 0, 0, 0, 0, 0, 1, 0, 0, 0, 0, 0, 0, 0, // GeneralIndex
    ];
    assert_eq!(encode_descriptor(&general), expected_general);
}

#[test]
fn empty_location_encodes_to_its_header_alone() {
    let d = AssetDescriptor {
        network: 3,
        location: Location {
            parents: 2,
            interior: Vec::new(),
        },
    };
    assert_eq!(encode_descriptor(&d), vec![3, 2, 0, 0, 0, 0, 0, 0, 0, 0]);
}

#[test]
fn distinct_descriptors_encode_differently() {
    let a = AssetDescriptor {
        network: 1,
        location: Location {
            parents: 1,
            interior: vec![Junction::Parachain(2004)],
        },
    };
    let b = AssetDescriptor {
        network: 2,
        location: Location {
            parents: 1,
            interior: vec![Junction::Parachain(2004)],
        },
    };
    let c = AssetDescriptor {
        network: 1,
        location: Location {
            parents: 1,
            interior: vec![Junction::Parachain(2005)],
        },
    };
    assert_ne!(encode_descriptor(&a), encode_descriptor(&b));
    assert_ne!(encode_descriptor(&a), encode_descriptor(&c));
    assert_eq!(encode_descriptor(&a), encode_descriptor(&a.clone()));
}

#[test]
fn empty_batch_encodes_to_a_zero_count() {
    let requests: Vec<ScheduleRequest> = Vec::new();
    assert_eq!(
        encode_schedule_payload(&requests),
        vec![0, 0, 0, 0, 0, 0, 0, 0]
    );
}

#[test]
fn payload_encoding_prefixes_the_count() {
    let requests = vec![ScheduleRequest {
        asset: AssetDescriptor {
            network: 1,
            location: Location {
                parents: 1,
                interior: vec![Junction::Parachain(2004)],
            },
        },
        amount: 5,
        destination: Location {
            parents: 0,
            interior: vec![Junction::AccountIndex64(42)],
        },
        extra: vec![0xaa, 0xbb],
    }];
    let encoded = encode_schedule_payload(&requests);
    // count, descriptor, amount, destination, extra length, extra bytes
    let mut expected = vec![1u8, 0, 0, 0, 0, 0, 0, 0];
    expected.extend_from_slice(&[1, 1, 1, 0, 0, 0, 0, 0, 0, 0, 0, 0xd4, 0x07, 0, 0]);
    expected.extend_from_slice(&5u128.to_le_bytes());
    expected.extend_from_slice(&[0, 1, 0, 0, 0, 0, 0, 0, 0, 1, 42, 0, 0, 0, 0, 0, 0, 0]);
    expected.extend_from_slice(&[2, 0, 0, 0, 0, 0, 0, 0, 0xaa, 0xbb]);
    assert_eq!(encoded, expected);
}
