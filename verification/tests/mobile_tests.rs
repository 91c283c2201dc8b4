use edisondb::mobile::{counter_from_stored, pack_record, stamp_record, u64_le_bytes, unpack_value, ArpiHeader};

fn header_for(value: &[u8], counter: u64) -> ArpiHeader {
    ArpiHeader {
        magic: *b"ARPi",
        write_counter: counter,
        timestamp_us: 1_700_000_000_000_000,
        tier: 2,
        reserved: [0u8; 3],
        blake3_hash: *blake3::hash(value).as_bytes(),
        node_id: [7u8; 22],
    }
}

#[test]
fn header_round_trips_through_bytes() {
    let h = header_for(b"value", 42);
    let bytes = h.to_bytes();
    assert_eq!(&bytes[0..4], b"ARPi");
    assert_eq!(&bytes[4..12], &42u64.to_le_bytes());
    let back = ArpiHeader::from_bytes(&bytes).unwrap();
    assert_eq!(back.write_counter, 42);
    assert_eq!(back.timestamp_us, h.timestamp_us);
    assert_eq!(back.tier, 2);
    assert_eq!(back.blake3_hash, h.blake3_hash);
    assert_eq!(back.node_id, h.node_id);
    assert_eq!(back.to_bytes().to_vec(), bytes.to_vec());
}

#[test]
fn short_or_unmarked_header_is_refused() {
    let bytes = header_for(b"v", 1).to_bytes();
    assert!(ArpiHeader::from_bytes(&bytes[..77]).is_none());
    let mut bad = bytes;
    bad[0] = b'X';
    assert!(ArpiHeader::from_bytes(&bad).is_none());
}

#[test]
fn pack_then_unpack_gives_value() {
    let h = header_for(b"hello", 3).to_bytes();
    let rec = pack_record(&h, b"hello");
    assert_eq!(rec.len(), 78 + 5);
    assert_eq!(unpack_value(&rec), Some(&b"hello"[..]));
    assert_eq!(unpack_value(&rec[..10]), None);
}

#[test]
fn stamp_checks_hash_and_sets_next_counter() {
    let value = b"sensor reading 17";
    let raw = header_for(value, 999).to_bytes();
    let (counter, rec) = stamp_record(4, value, &raw).unwrap();
    assert_eq!(counter, 5);
    let stored = ArpiHeader::from_bytes(&rec).unwrap();
    assert_eq!(stored.write_counter, 5);
    assert_eq!(stored.timestamp_us, 1_700_000_000_000_000);
    assert_eq!(unpack_value(&rec), Some(&value[..]));
}

#[test]
fn stamp_refuses_wrong_hash() {
    let raw = header_for(b"other value", 0).to_bytes();
    assert!(stamp_record(0, b"this value", &raw).is_none());
}

#[test]
fn stamp_refuses_short_header() {
    let raw = header_for(b"v", 0).to_bytes();
    assert!(stamp_record(0, b"v", &raw[..40]).is_none());
}

#[test]
fn counter_restores_from_its_bytes() {
    let b = u64_le_bytes(123_456_789);
    assert_eq!(counter_from_stored(Some(&b[..])), 123_456_789);
    assert_eq!(counter_from_stored(Some(&b[..7])), 0);
    assert_eq!(counter_from_stored(None), 0);
}
