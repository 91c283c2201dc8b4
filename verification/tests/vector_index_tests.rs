use edisondb::vector_index::{decode_index, encode_index, position_of};

fn sample() -> Vec<(String, Vec<u32>)> {
    vec![
        ("rec:1".to_string(), vec![1.0f32.to_bits(), 0.5f32.to_bits()]),
        ("ключ".to_string(), vec![]),
        ("x".to_string(), vec![(-0.25f32).to_bits()]),
    ]
}

#[test]
fn index_file_round_trips() {
    let entries = sample();
    let bytes = encode_index(&entries);
    assert_eq!(decode_index(&bytes), Some(entries));
}

#[test]
fn index_file_layout() {
    let entries = vec![("ab".to_string(), vec![0x01020304u32])];
    let bytes = encode_index(&entries);
    assert_eq!(bytes, vec![1, 0, 0, 0, 2, 0, 0, 0, b'a', b'b', 1, 0, 0, 0, 4, 3, 2, 1]);
}

#[test]
fn empty_index_is_four_zero_bytes() {
    assert_eq!(encode_index(&[]), vec![0, 0, 0, 0]);
    assert_eq!(decode_index(&[0, 0, 0, 0]), Some(vec![]));
}

#[test]
fn truncated_file_is_refused() {
    let bytes = encode_index(&sample());
    for cut in 0..bytes.len() {
        assert_eq!(decode_index(&bytes[..cut]), None, "cut at {}", cut);
    }
}

#[test]
fn trailing_bytes_are_ignored() {
    let mut bytes = encode_index(&sample());
    bytes.extend_from_slice(&[9, 9, 9]);
    assert_eq!(decode_index(&bytes), Some(sample()));
}

#[test]
fn id_that_is_not_utf8_is_refused() {
    let bytes = vec![1, 0, 0, 0, 1, 0, 0, 0, 0xff, 0, 0, 0, 0];
    assert_eq!(decode_index(&bytes), None);
}

#[test]
fn floats_survive_as_bit_patterns() {
    let back = decode_index(&encode_index(&sample())).unwrap();
    assert_eq!(f32::from_bits(back[0].1[1]), 0.5);
    assert_eq!(f32::from_bits(back[2].1[0]), -0.25);
}

#[test]
fn position_of_finds_first_slot() {
    let ids = vec!["a".to_string(), "b".to_string(), "a".to_string()];
    assert_eq!(position_of(&ids, "a"), Some(0));
    assert_eq!(position_of(&ids, "b"), Some(1));
    assert_eq!(position_of(&ids, "c"), None);
    assert_eq!(position_of(&[], "a"), None);
}
