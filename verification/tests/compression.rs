use block_oracle::compressor::{
    apply_register_networks, compress_block_numbers, CompressionError, Encoder, Network,
    CURRENT_ENCODING_VERSION,
};
use block_oracle::encoding::encode_messages;
use block_oracle::merkle::merkle_root;
use block_oracle::messages::{
    BlockPtr, CompressedMessage, CompressedSetBlockNumbersForNextEpoch, EpochDetails, Message,
};
use tiny_keccak::{Hasher, Keccak};

fn keccak(data: &[u8]) -> [u8; 32] {
    let mut output = [0u8; 32];
    let mut hasher = Keccak::v256();
    hasher.update(data);
    hasher.finalize(&mut output);
    output
}

fn leaf(name: &str, number: u64, hash: &[u8; 32]) -> [u8; 32] {
    let mut data = name.as_bytes().to_vec();
    data.extend_from_slice(&number.to_be_bytes());
    data.extend_from_slice(hash);
    keccak(&data)
}

fn pair(left: &[u8; 32], right: &[u8; 32]) -> [u8; 32] {
    let mut data = left.to_vec();
    data.extend_from_slice(right);
    keccak(&data)
}

fn network(block_number: u64, block_delta: i64) -> Network {
    Network { block_number, block_delta }
}

#[test]
fn keccak_of_nothing_is_the_known_digest() {
    // The root over two equal leaves goes through the digest once.
    let zero = [0u8; 32];
    let root = merkle_root(vec![zero, zero]);
    assert_eq!(root, pair(&zero, &zero));
    assert_ne!(root, zero);
    assert_eq!(
        block_oracle::hex_format::hex_string(&keccak(b"")),
        "0xc5d2460186f7233c927e7db2dcc703c0e500b653ca82273b7bfad8045d85a470"
    );
}

#[test]
fn merkle_root_of_no_leaf_is_zero() {
    assert_eq!(merkle_root(vec![]), [0u8; 32]);
}

#[test]
fn merkle_root_of_one_leaf_is_the_leaf() {
    let l = keccak(b"leaf");
    assert_eq!(merkle_root(vec![l]), l);
}

#[test]
fn merkle_root_pairs_and_duplicates_the_odd_node() {
    let a = keccak(b"a");
    let b = keccak(b"b");
    let c = keccak(b"c");
    let d = keccak(b"d");
    let e = keccak(b"e");
    assert_eq!(merkle_root(vec![a, b]), pair(&a, &b));
    assert_eq!(merkle_root(vec![a, b, c]), pair(&pair(&a, &b), &pair(&c, &c)));
    assert_eq!(merkle_root(vec![a, b, c, d]), pair(&pair(&a, &b), &pair(&c, &d)));
    let ee = pair(&e, &e);
    assert_eq!(
        merkle_root(vec![a, b, c, d, e]),
        pair(&pair(&pair(&a, &b), &pair(&c, &d)), &pair(&ee, &ee))
    );
}

#[test]
fn empty_registry_no_diff() {
    let mut encoder = Encoder::new(CURRENT_ENCODING_VERSION, vec![]).unwrap();
    let messages = vec![Message::SetBlockNumbersForNextEpoch(vec![])];
    let compressed = encoder.compress(&messages).unwrap();
    assert_eq!(
        compressed,
        vec![CompressedMessage::SetBlockNumbersForNextEpoch(
            CompressedSetBlockNumbersForNextEpoch::Empty { count: 1 }
        )]
    );
    assert_eq!(encode_messages(&compressed), vec![0x00, 0x01]);
    let mut again = Encoder::new(CURRENT_ENCODING_VERSION, vec![]).unwrap();
    assert_eq!(again.encode(&messages).unwrap(), vec![0x00, 0x01]);
    assert!(again.networks.is_empty());
}

#[test]
fn single_chain_acceleration() {
    let hash = [7u8; 32];
    let mut encoder =
        Encoder::new(CURRENT_ENCODING_VERSION, vec![("eip155:1".to_string(), network(100, 5))])
            .unwrap();
    let messages = vec![Message::SetBlockNumbersForNextEpoch(vec![(
        "eip155:1".to_string(),
        BlockPtr::new(108, hash),
    )])];
    let compressed = encoder.compress(&messages).unwrap();
    assert_eq!(compressed.len(), 1);
    let (accelerations, root) = compressed[0].as_non_empty_block_numbers().unwrap();
    assert_eq!(accelerations, &[3i64][..]);
    assert_eq!(root, leaf("eip155:1", 108, &hash));
    assert_eq!(encoder.networks, vec![("eip155:1".to_string(), network(108, 8))]);
    assert_eq!(108, 100 + 5 + 3);

    // The next cycle works from the new block number and delta.
    let next = vec![Message::SetBlockNumbersForNextEpoch(vec![(
        "eip155:1".to_string(),
        BlockPtr::new(110, hash),
    )])];
    let compressed = encoder.compress(&next).unwrap();
    let (accelerations, _) = compressed[0].as_non_empty_block_numbers().unwrap();
    assert_eq!(accelerations, &[-6i64][..]);
    assert_eq!(encoder.networks, vec![("eip155:1".to_string(), network(110, 2))]);
}

#[test]
fn register_and_set_in_one_cycle() {
    let hash = [0xABu8; 32];
    let mut encoder = Encoder::new(CURRENT_ENCODING_VERSION, vec![]).unwrap();
    let messages = vec![
        Message::RegisterNetworks { remove: vec![], add: vec!["eip155:137".to_string()] },
        Message::SetBlockNumbersForNextEpoch(vec![(
            "eip155:137".to_string(),
            BlockPtr::new(42, hash),
        )]),
    ];
    let payload = encoder.encode(&messages).unwrap();
    // The registry change is the first message of the block: its tag, 3, is
    // the low half of the preamble, and the tag of the block numbers, 0, the
    // high half.
    let mut expected = vec![0x03u8, 0x00, 0x01, 10];
    expected.extend_from_slice(b"eip155:137");
    expected.extend_from_slice(&leaf("eip155:137", 42, &hash));
    expected.push(0x54);
    assert_eq!(payload, expected);
    assert_eq!(encoder.networks, vec![("eip155:137".to_string(), network(42, 42))]);
}

#[test]
fn register_networks_with_removal() {
    let registry = vec![
        ("A".to_string(), network(1, 1)),
        ("B".to_string(), network(2, 2)),
        ("C".to_string(), network(3, 3)),
    ];
    let mut encoder = Encoder::new(CURRENT_ENCODING_VERSION, registry).unwrap();
    let messages = vec![Message::RegisterNetworks { remove: vec![1], add: vec!["D".to_string()] }];
    let compressed = encoder.compress(&messages).unwrap();
    assert_eq!(
        compressed,
        vec![CompressedMessage::RegisterNetworks { remove: vec![1], add: vec!["D".to_string()] }]
    );
    assert_eq!(encode_messages(&compressed), vec![0x03, 0x01, 0x01, 0x01, 0x01, b'D']);
    assert_eq!(
        encoder.networks,
        vec![
            ("A".to_string(), network(1, 1)),
            ("C".to_string(), network(3, 3)),
            ("D".to_string(), network(0, 0)),
        ]
    );
}

#[test]
fn removal_counts_in_the_registry_as_it_stood() {
    let registry = vec![
        ("A".to_string(), network(1, 0)),
        ("B".to_string(), network(2, 0)),
        ("C".to_string(), network(3, 0)),
        ("D".to_string(), network(4, 0)),
    ];
    let next = apply_register_networks(&registry, &vec![0, 2, 9, 2], &vec![]);
    assert_eq!(next, vec![("B".to_string(), network(2, 0)), ("D".to_string(), network(4, 0))]);
}

#[test]
fn empty_register_networks_is_not_emitted() {
    let mut encoder = Encoder::new(CURRENT_ENCODING_VERSION, vec![]).unwrap();
    let messages = vec![
        Message::RegisterNetworks { remove: vec![], add: vec![] },
        Message::Reset,
    ];
    let compressed = encoder.compress(&messages).unwrap();
    assert_eq!(compressed, vec![CompressedMessage::Reset]);
}

#[test]
fn other_messages_pass_through() {
    let details = EpochDetails { tx_hash: [1u8; 32], merkle_root: [2u8; 32] };
    let registry = vec![("A".to_string(), network(1, 1))];
    let mut encoder = Encoder::new(CURRENT_ENCODING_VERSION, registry.clone()).unwrap();
    let messages = vec![
        Message::UpdateVersion { version_number: 300 },
        Message::ChangeOwnership { new_owner_address: [9u8; 20] },
        Message::Reset,
        Message::CorrectEpochs { data_by_network_id: vec![(0, details), (5, details)] },
    ];
    let compressed = encoder.compress(&messages).unwrap();
    assert_eq!(
        compressed,
        vec![
            CompressedMessage::UpdateVersion { version_number: 300 },
            CompressedMessage::ChangeOwnership { new_owner_address: [9u8; 20] },
            CompressedMessage::Reset,
            CompressedMessage::CorrectEpochs { data_by_network_id: vec![(0, details), (5, details)] },
        ]
    );
    assert_eq!(encoder.networks, registry);
    let mut expected = vec![0x52u8, 0x81, 0x2C];
    expected.extend_from_slice(&[9u8; 20]);
    expected.push(0x14);
    expected.push(0x02);
    for index in [0u8, 5u8] {
        expected.push(index);
        expected.extend_from_slice(&[1u8; 32]);
        expected.extend_from_slice(&[2u8; 32]);
    }
    assert_eq!(encode_messages(&compressed), expected);
}

#[test]
fn two_chains_in_registry_order() {
    let ha = [1u8; 32];
    let hb = [2u8; 32];
    let registry = vec![("A".to_string(), network(10, 1)), ("B".to_string(), network(20, -2))];
    let blocks = vec![("B".to_string(), BlockPtr::new(15, hb)), ("A".to_string(), BlockPtr::new(12, ha))];
    let (next, out) = compress_block_numbers(&registry, &blocks).unwrap();
    assert_eq!(next, vec![("A".to_string(), network(12, 2)), ("B".to_string(), network(15, -5))]);
    assert_eq!(
        out,
        CompressedSetBlockNumbersForNextEpoch::NonEmpty {
            accelerations: vec![1, -3],
            root: pair(&leaf("A", 12, &ha), &leaf("B", 15, &hb)),
        }
    );
}

#[test]
fn missing_or_extra_chain_is_a_mismatch() {
    let h = [0u8; 32];
    let registry = vec![("A".to_string(), network(10, 1)), ("B".to_string(), network(20, 2))];
    let mut encoder = Encoder::new(CURRENT_ENCODING_VERSION, registry.clone()).unwrap();
    let missing = vec![Message::SetBlockNumbersForNextEpoch(vec![("A".to_string(), BlockPtr::new(11, h))])];
    assert_eq!(encoder.compress(&missing), Err(CompressionError::NetworkMismatch));
    let extra = vec![Message::SetBlockNumbersForNextEpoch(vec![
        ("A".to_string(), BlockPtr::new(11, h)),
        ("B".to_string(), BlockPtr::new(21, h)),
        ("C".to_string(), BlockPtr::new(31, h)),
    ])];
    assert_eq!(encoder.compress(&extra), Err(CompressionError::NetworkMismatch));
    let other = vec![Message::SetBlockNumbersForNextEpoch(vec![
        ("A".to_string(), BlockPtr::new(11, h)),
        ("C".to_string(), BlockPtr::new(31, h)),
    ])];
    assert_eq!(encoder.encode(&other), Err(CompressionError::NetworkMismatch));
    assert_eq!(encoder.networks, registry);
}

#[test]
fn failed_pass_leaves_the_registry_alone() {
    let h = [0u8; 32];
    let registry = vec![("A".to_string(), network(10, 1))];
    let mut encoder = Encoder::new(CURRENT_ENCODING_VERSION, registry.clone()).unwrap();
    let messages = vec![
        Message::RegisterNetworks { remove: vec![], add: vec!["B".to_string()] },
        Message::SetBlockNumbersForNextEpoch(vec![("A".to_string(), BlockPtr::new(11, h))]),
    ];
    assert_eq!(encoder.compress(&messages), Err(CompressionError::NetworkMismatch));
    assert_eq!(encoder.networks, registry);
}

#[test]
fn difference_beyond_64_bits_is_out_of_range() {
    let h = [0u8; 32];
    let registry = vec![("A".to_string(), network(0, 0))];
    let blocks = vec![("A".to_string(), BlockPtr::new(u64::MAX, h))];
    assert_eq!(
        compress_block_numbers(&registry, &blocks),
        Err(CompressionError::BlockNumberOutOfRange)
    );
    let registry = vec![("A".to_string(), network(0, i64::MIN))];
    let blocks = vec![("A".to_string(), BlockPtr::new(1, h))];
    assert_eq!(
        compress_block_numbers(&registry, &blocks),
        Err(CompressionError::BlockNumberOutOfRange)
    );
    let registry = vec![("A".to_string(), network(5, 0))];
    let blocks = vec![("A".to_string(), BlockPtr::new(5 + i64::MAX as u64, h))];
    let (next, _) = compress_block_numbers(&registry, &blocks).unwrap();
    assert_eq!(next[0].1, network(5 + i64::MAX as u64, i64::MAX));
}

#[test]
fn only_the_current_version_is_written() {
    assert!(Encoder::new(CURRENT_ENCODING_VERSION, vec![]).is_ok());
    assert_eq!(
        Encoder::new(7, vec![]).unwrap_err(),
        CompressionError::UnsupportedEncodingVersion(7)
    );
}

#[test]
fn block_ptr_keeps_its_fields() {
    let ptr = BlockPtr::new(9, [3u8; 32]);
    assert_eq!(ptr.number, 9);
    assert_eq!(ptr.hash, [3u8; 32]);
}

#[test]
fn only_non_empty_block_numbers_have_accelerations() {
    let empty = CompressedMessage::SetBlockNumbersForNextEpoch(
        CompressedSetBlockNumbersForNextEpoch::Empty { count: 2 },
    );
    assert!(empty.as_non_empty_block_numbers().is_none());
    assert!(CompressedMessage::Reset.as_non_empty_block_numbers().is_none());
    let full = CompressedMessage::SetBlockNumbersForNextEpoch(
        CompressedSetBlockNumbersForNextEpoch::NonEmpty { accelerations: vec![1, -1], root: [4u8; 32] },
    );
    assert_eq!(full.as_non_empty_block_numbers(), Some((&[1i64, -1][..], [4u8; 32])));
}
