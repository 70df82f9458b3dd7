use stable_records::codec::{decode_record, encode_record, MAX_ENCODED_LEN};
use stable_records::record::{Error, Record};

fn sample(id: u64, category: &str, price: u64, created_at: u64, updated_at: Option<u64>) -> Record {
    Record { id, category: category.to_string(), price, created_at, updated_at }
}

#[test]
fn round_trip_plain_record() {
    let r = sample(1, "widget", 10, 5, None);
    let bytes = encode_record(&r).unwrap();
    let back = decode_record(bytes.as_slice()).unwrap();
    assert_eq!(back, r);
}

#[test]
fn round_trip_updated_record() {
    let r = sample(7, "gadget", 250, 40, Some(90));
    let bytes = encode_record(&r).unwrap();
    let back = decode_record(bytes.as_slice()).unwrap();
    assert_eq!(back, r);
}

#[test]
fn round_trip_non_ascii_category() {
    let r = sample(3, "h\u{e9}llo w\u{f6}rld \u{2603}", 1, 2, Some(4));
    let bytes = encode_record(&r).unwrap();
    let back = decode_record(bytes.as_slice()).unwrap();
    assert_eq!(back, r);
}

#[test]
fn round_trip_empty_category() {
    let r = sample(0, "", 0, 0, None);
    let bytes = encode_record(&r).unwrap();
    assert_eq!(bytes.len(), 37);
    let back = decode_record(bytes.as_slice()).unwrap();
    assert_eq!(back, r);
}

#[test]
fn encode_exact_bytes() {
    let r = sample(1, "A", 2, 3, None);
    let bytes = encode_record(&r).unwrap();
    let mut expected: Vec<u8> = Vec::new();
    expected.extend_from_slice(&1u64.to_le_bytes());
    expected.extend_from_slice(&2u64.to_le_bytes());
    expected.extend_from_slice(&3u64.to_le_bytes());
    expected.push(0);
    expected.extend_from_slice(&0u64.to_le_bytes());
    expected.extend_from_slice(&1u32.to_le_bytes());
    expected.push(b'A');
    assert_eq!(bytes, expected);
}

#[test]
fn oversize_record_rejected() {
    let r = sample(1, &"x".repeat(988), 1, 1, None);
    let res = encode_record(&r);
    assert!(matches!(res, Err(Error::SizeExceeded)));
}

#[test]
fn largest_fitting_record_accepted() {
    let r = sample(1, &"x".repeat(987), 1, 1, None);
    let bytes = encode_record(&r).unwrap();
    assert_eq!(bytes.len() as u64, MAX_ENCODED_LEN);
}

#[test]
fn decode_short_buffer_fails() {
    assert!(matches!(decode_record(&[1, 2, 3]), Err(Error::Decode)));
    assert!(matches!(decode_record(&[]), Err(Error::Decode)));
}

#[test]
fn decode_bad_flag_fails() {
    let r = sample(1, "a", 2, 3, None);
    let mut bytes = encode_record(&r).unwrap();
    bytes[24] = 2;
    assert!(matches!(decode_record(bytes.as_slice()), Err(Error::Decode)));
}

#[test]
fn decode_stray_update_time_fails() {
    let r = sample(1, "a", 2, 3, None);
    let mut bytes = encode_record(&r).unwrap();
    bytes[25] = 1;
    assert!(matches!(decode_record(bytes.as_slice()), Err(Error::Decode)));
}

#[test]
fn decode_wrong_length_field_fails() {
    let r = sample(1, "ab", 2, 3, None);
    let mut bytes = encode_record(&r).unwrap();
    bytes[33] = 5;
    assert!(matches!(decode_record(bytes.as_slice()), Err(Error::Decode)));
}

#[test]
fn decode_invalid_utf8_fails() {
    let r = sample(1, "a", 2, 3, None);
    let mut bytes = encode_record(&r).unwrap();
    let last = bytes.len() - 1;
    bytes[last] = 0xff;
    assert!(matches!(decode_record(bytes.as_slice()), Err(Error::Decode)));
}
