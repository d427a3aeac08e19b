use blackhole::codec::{decode_embedding, encode_embedding, CodecError};
use blackhole::keys::{forward_key, key_le, reverse_key, scan_bounds, KeyOrder, MAX_TS};

fn bits(values: &[f32]) -> Vec<u32> {
    values.iter().map(|v| v.to_bits()).collect()
}

#[test]
fn encode_is_little_endian_words_in_order() {
    let blob = encode_embedding(&bits(&[1.0, -2.5]));
    assert_eq!(blob, vec![0x00, 0x00, 0x80, 0x3f, 0x00, 0x00, 0x20, 0xc0]);
}

#[test]
fn encode_empty_is_empty() {
    assert!(encode_embedding(&[]).is_empty());
}

#[test]
fn round_trip_keeps_every_value() {
    let values = [0.0f32, -0.0, 1.5, f32::MAX, f32::MIN_POSITIVE, -7.25, f32::INFINITY];
    let words = bits(&values);
    let back = decode_embedding(&encode_embedding(&words)).unwrap();
    assert_eq!(back, words);
    let floats: Vec<f32> = back.iter().map(|w| f32::from_bits(*w)).collect();
    assert_eq!(floats, values.to_vec());
}

#[test]
fn decode_reads_little_endian() {
    let words = decode_embedding(&[0x00, 0x00, 0x80, 0x3f]).unwrap();
    assert_eq!(f32::from_bits(words[0]), 1.0);
}

#[test]
fn decode_rejects_partial_word() {
    assert_eq!(decode_embedding(&[1, 2, 3, 4, 5]), Err(CodecError::LengthError { len: 5 }));
    assert_eq!(decode_embedding(&[1, 2, 3]), Err(CodecError::LengthError { len: 3 }));
}

#[test]
fn decode_empty_is_empty() {
    assert_eq!(decode_embedding(&[]), Ok(vec![]));
}

#[test]
fn forward_key_pads_to_five_digits() {
    assert_eq!(forward_key("user1.clicks", 7), b"user1.clicks:00007".to_vec());
    assert_eq!(forward_key("e", MAX_TS), b"e:65535".to_vec());
    assert_eq!(forward_key("e", 0), b"e:00000".to_vec());
}

#[test]
fn reverse_key_complements_timestamp() {
    assert_eq!(reverse_key("user1.clicks", 7), b"user1.clicks:65528".to_vec());
    assert_eq!(reverse_key("e", MAX_TS), b"e:00000".to_vec());
    assert_eq!(reverse_key("e", 0), b"e:65535".to_vec());
}

#[test]
fn encodings_are_monotonic() {
    let stamps = [0u16, 1, 9, 10, 99, 100, 9999, 10000, 65534, 65535];
    for w in stamps.windows(2) {
        let (t1, t2) = (w[0], w[1]);
        assert!(forward_key("p", t1) < forward_key("p", t2));
        assert!(reverse_key("p", t1) > reverse_key("p", t2));
    }
}

#[test]
fn scan_bounds_reverse_starts_at_end_timestamp() {
    let (lo, hi) = scan_bounds("p", 10, 20, KeyOrder::Reverse);
    assert_eq!(lo, b"p:65515".to_vec());
    assert_eq!(hi, b"p:65525".to_vec());
}

#[test]
fn scan_bounds_forward_starts_at_start_timestamp() {
    let (lo, hi) = scan_bounds("p", 10, 20, KeyOrder::Forward);
    assert_eq!(lo, b"p:00010".to_vec());
    assert_eq!(hi, b"p:00020".to_vec());
}

#[test]
fn key_le_is_bytewise_lexicographic() {
    assert!(key_le(b"abc", b"abc"));
    assert!(key_le(b"ab", b"abc"));
    assert!(!key_le(b"abc", b"ab"));
    assert!(key_le(b"abb", b"abc"));
    assert!(!key_le(b"b", b"abc"));
    assert!(key_le(b"", b""));
    assert!(key_le(b"", b"a"));
}
