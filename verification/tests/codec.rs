use mmr_checkpoint::digest::{Digest, decode_digest, encode_digest};
use mmr_checkpoint::error::MmrError;
use mmr_checkpoint::num::{parse_u64, u64_to_string};
use mmr_checkpoint::resolver::{position_query, query_body};

fn bytes(b: u8) -> Vec<u8> {
    vec![b; 32]
}

#[test]
fn decode_accepts_prefixed_64_hex() {
    let text = format!("0x{}", "ab".repeat(32));
    let d = decode_digest(&text).unwrap();
    assert_eq!(d.as_bytes().as_slice(), &[0xabu8; 32][..]);
}

#[test]
fn decode_accepts_mixed_case() {
    let text = format!("0x{}", "Ab".repeat(32));
    let d = decode_digest(&text).unwrap();
    assert_eq!(d.as_bytes().as_slice(), &[0xabu8; 32][..]);
}

#[test]
fn decode_rejects_missing_prefix() {
    let text = "ab".repeat(33);
    assert_eq!(decode_digest(&text).unwrap_err(), MmrError::MalformedDigest);
}

#[test]
fn decode_rejects_31_byte_digest() {
    // 62 hex characters: 31 bytes, one short
    let text = format!("0x{}", "ab".repeat(31));
    assert_eq!(decode_digest(&text).unwrap_err(), MmrError::MalformedDigest);
}

#[test]
fn decode_rejects_bad_character() {
    let text = format!("0x{}zz", "ab".repeat(31));
    assert_eq!(decode_digest(&text).unwrap_err(), MmrError::MalformedDigest);
}

#[test]
fn encode_is_prefixed_lowercase_hex() {
    let mut v = Vec::new();
    for i in 0..32u32 {
        v.push(i as u8);
    }
    let d = Digest::new(v).unwrap();
    assert_eq!(
        encode_digest(&d),
        "0x000102030405060708090a0b0c0d0e0f101112131415161718191a1b1c1d1e1f"
    );
}

#[test]
fn encode_decode_round_trip() {
    let d = Digest::new(bytes(0x5e)).unwrap();
    let text = encode_digest(&d);
    assert_eq!(text.len(), 66);
    let back = decode_digest(&text).unwrap();
    assert_eq!(back.as_bytes(), d.as_bytes());
}

#[test]
fn digest_constructor_checks_length() {
    assert!(Digest::new(vec![0u8; 32]).is_ok());
    assert_eq!(Digest::new(vec![0u8; 31]).unwrap_err(), MmrError::MalformedDigest);
    assert_eq!(Digest::new(vec![0u8; 33]).unwrap_err(), MmrError::MalformedDigest);
}

#[test]
fn parse_u64_reads_decimals() {
    assert_eq!(parse_u64("0"), Some(0));
    assert_eq!(parse_u64("123"), Some(123));
    assert_eq!(parse_u64("18446744073709551615"), Some(u64::MAX));
}

#[test]
fn parse_u64_rejects_junk() {
    assert_eq!(parse_u64(""), None);
    assert_eq!(parse_u64("+1"), None);
    assert_eq!(parse_u64("12a"), None);
    assert_eq!(parse_u64("18446744073709551616"), None);
}

#[test]
fn u64_to_string_renders_decimals() {
    assert_eq!(u64_to_string(0), "0");
    assert_eq!(u64_to_string(12345), "12345");
    assert_eq!(u64_to_string(u64::MAX), "18446744073709551615");
}

#[test]
fn position_query_lists_positions_in_order() {
    assert_eq!(position_query(&vec![]), "");
    assert_eq!(position_query(&vec![1, 20]), ", \\\"1\\\", \\\"20\\\"");
}

#[test]
fn query_body_wraps_the_fragment() {
    let body = query_body(&vec![6]);
    assert!(body.contains(", \\\"6\\\""));
    assert!(body.starts_with("{\n\"query\":\"{\\n nodeEntities(where: {position_in: ["));
    assert!(body.ends_with("]}) {\\n    id\\n    position\\n    hash\\n  }\\n}\\n\",\n    \"variables\":null\n}"));
}
