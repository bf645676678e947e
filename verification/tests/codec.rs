use block_oracle::encoding::{
    decode_i64, decode_u64, encode_i64, encode_messages, encode_str, encode_u64,
};
use block_oracle::messages::{CompressedMessage, CompressedSetBlockNumbersForNextEpoch};

fn u64_bytes(value: u64) -> Vec<u8> {
    let mut bytes = Vec::new();
    encode_u64(value, &mut bytes);
    bytes
}

fn i64_bytes(value: i64) -> Vec<u8> {
    let mut bytes = Vec::new();
    encode_i64(value, &mut bytes);
    bytes
}

#[test]
fn u64_exact_bytes() {
    assert_eq!(u64_bytes(0), vec![0x00]);
    assert_eq!(u64_bytes(1), vec![0x01]);
    assert_eq!(u64_bytes(127), vec![0x7F]);
    assert_eq!(u64_bytes(128), vec![0x80, 0x80]);
    assert_eq!(u64_bytes(0x3FFF), vec![0xBF, 0xFF]);
    assert_eq!(u64_bytes(0x4000), vec![0xC0, 0x40, 0x00]);
    assert_eq!(
        u64_bytes(0x00FF_FFFF_FFFF_FFFF),
        vec![0xFE, 0xFF, 0xFF, 0xFF, 0xFF, 0xFF, 0xFF, 0xFF]
    );
    assert_eq!(
        u64_bytes(0x0100_0000_0000_0000),
        vec![0xFF, 0x01, 0, 0, 0, 0, 0, 0, 0]
    );
    assert_eq!(u64_bytes(u64::MAX), vec![0xFF; 9]);
}

#[test]
fn u64_lengths_by_magnitude() {
    for n in 1..=8u32 {
        let below = (1u64 << (7 * n)) - 1;
        let at = 1u64 << (7 * n);
        assert_eq!(u64_bytes(below).len(), n as usize);
        assert_eq!(u64_bytes(at).len(), n as usize + 1);
    }
    assert_eq!(u64_bytes(u64::MAX).len(), 9);
}

#[test]
fn u64_round_trip() {
    let mut samples = vec![0u64, 1, 127, 128, 255, 256, 300, u64::MAX, u64::MAX - 1];
    for shift in 0..64 {
        samples.push(1u64 << shift);
        samples.push((1u64 << shift).wrapping_sub(1));
        samples.push((1u64 << shift) + 1);
    }
    for v in samples {
        let bytes = u64_bytes(v);
        assert_eq!(decode_u64(&bytes), Some((v, bytes.len())));
    }
}

#[test]
fn i64_round_trip() {
    let mut samples = vec![0i64, -1, 1, -2, 2, i64::MIN, i64::MAX, i64::MIN + 1, 42, -42];
    for shift in 0..63 {
        samples.push(1i64 << shift);
        samples.push(-(1i64 << shift));
    }
    for v in samples {
        let bytes = i64_bytes(v);
        assert_eq!(decode_i64(&bytes), Some((v, bytes.len())));
    }
}

#[test]
fn i64_is_zigzag_then_varint() {
    assert_eq!(i64_bytes(0), u64_bytes(0));
    assert_eq!(i64_bytes(-1), u64_bytes(1));
    assert_eq!(i64_bytes(1), u64_bytes(2));
    assert_eq!(i64_bytes(-2), u64_bytes(3));
    assert_eq!(i64_bytes(42), vec![0x54]);
    assert_eq!(i64_bytes(i64::MAX), u64_bytes(u64::MAX - 1));
    assert_eq!(i64_bytes(i64::MIN), u64_bytes(u64::MAX));
}

#[test]
fn decode_of_short_input_is_none() {
    assert_eq!(decode_u64(&[]), None);
    assert_eq!(decode_u64(&[0x80]), None);
    assert_eq!(decode_u64(&[0xFF, 1, 2, 3]), None);
    assert_eq!(decode_i64(&[]), None);
}

#[test]
fn decode_reads_only_the_front() {
    assert_eq!(decode_u64(&[0x05, 0xAA, 0xBB]), Some((5, 1)));
    assert_eq!(decode_u64(&[0x80, 0x80, 0xAA]), Some((128, 2)));
    assert_eq!(decode_i64(&[0x03, 0xAA]), Some((-2, 1)));
}

#[test]
fn str_is_length_then_bytes() {
    let mut bytes = Vec::new();
    encode_str("eip155:137", &mut bytes);
    let mut expected = vec![10u8];
    expected.extend_from_slice(b"eip155:137");
    assert_eq!(bytes, expected);
}

#[test]
fn empty_registry_payload() {
    let messages = vec![CompressedMessage::SetBlockNumbersForNextEpoch(
        CompressedSetBlockNumbersForNextEpoch::Empty { count: 1 },
    )];
    assert_eq!(encode_messages(&messages), vec![0x00, 0x01]);
}

#[test]
fn payload_reads_back_by_hand() {
    // A block of two: a registry change that removes the indices 1 and 300 and
    // adds "D", then a new version.
    let messages = vec![
        CompressedMessage::RegisterNetworks { remove: vec![1, 300], add: vec!["D".to_string()] },
        CompressedMessage::UpdateVersion { version_number: 70000 },
    ];
    let payload = encode_messages(&messages);
    assert_eq!(payload[0] % 16, 3);
    assert_eq!(payload[0] / 16, 2);
    let mut at = 1;
    let (removed, read) = decode_u64(&payload[at..]).unwrap();
    at += read;
    assert_eq!(removed, 2);
    let (first, read) = decode_u64(&payload[at..]).unwrap();
    at += read;
    let (second, read) = decode_u64(&payload[at..]).unwrap();
    at += read;
    assert_eq!((first, second), (1, 300));
    let (added, read) = decode_u64(&payload[at..]).unwrap();
    at += read;
    assert_eq!(added, 1);
    let (len, read) = decode_u64(&payload[at..]).unwrap();
    at += read;
    assert_eq!(&payload[at..at + len as usize], b"D");
    at += len as usize;
    let (version, read) = decode_u64(&payload[at..]).unwrap();
    at += read;
    assert_eq!(version, 70000);
    assert_eq!(at, payload.len());
}

#[test]
fn accelerations_read_back_by_hand() {
    let messages = vec![CompressedMessage::SetBlockNumbersForNextEpoch(
        CompressedSetBlockNumbersForNextEpoch::NonEmpty {
            accelerations: vec![3, -70000, i64::MIN],
            root: [0x11u8; 32],
        },
    )];
    let payload = encode_messages(&messages);
    assert_eq!(payload[0], 0x00);
    assert_eq!(&payload[1..33], &[0x11u8; 32]);
    let mut at = 33;
    let mut read_back = Vec::new();
    while at < payload.len() {
        let (value, read) = decode_i64(&payload[at..]).unwrap();
        read_back.push(value);
        at += read;
    }
    assert_eq!(read_back, vec![3, -70000, i64::MIN]);
}
