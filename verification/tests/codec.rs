//! Byte-level primitives: integers and strings on the wire.

use hmny_host::codec::{decode_str, decode_u64, encode_str, encode_u64};

#[test]
fn u64_round_trip() {
    let mut buf: Vec<u8> = Vec::new();
    encode_u64(&mut buf, 0);
    encode_u64(&mut buf, 1);
    encode_u64(&mut buf, 0xDEAD_BEEF_0102_0304);
    encode_u64(&mut buf, u64::MAX);
    assert_eq!(buf.len(), 32);
    let (v0, p) = decode_u64(&buf, 0).unwrap();
    let (v1, p) = decode_u64(&buf, p).unwrap();
    let (v2, p) = decode_u64(&buf, p).unwrap();
    let (v3, p) = decode_u64(&buf, p).unwrap();
    assert_eq!(v0, 0);
    assert_eq!(v1, 1);
    assert_eq!(v2, 0xDEAD_BEEF_0102_0304);
    assert_eq!(v3, u64::MAX);
    assert_eq!(p, 32);
}

#[test]
fn u64_little_endian_layout() {
    let mut buf: Vec<u8> = Vec::new();
    encode_u64(&mut buf, 0x0807_0605_0403_0201);
    assert_eq!(buf, vec![1, 2, 3, 4, 5, 6, 7, 8]);
}

#[test]
fn u64_short_buffer() {
    let buf = vec![1u8, 2, 3];
    assert!(decode_u64(&buf, 0).is_none());
    assert!(decode_u64(&buf, 7).is_none());
}

#[test]
fn string_round_trip() {
    let mut buf: Vec<u8> = Vec::new();
    encode_str(&mut buf, "wrap host");
    encode_str(&mut buf, "");
    encode_str(&mut buf, "snölykta \u{1F600}");
    let (s0, p) = decode_str(&buf, 0).unwrap();
    let (s1, p) = decode_str(&buf, p).unwrap();
    let (s2, p) = decode_str(&buf, p).unwrap();
    assert_eq!(s0, "wrap host");
    assert_eq!(s1, "");
    assert_eq!(s2, "snölykta \u{1F600}");
    assert_eq!(p, buf.len());
}

#[test]
fn string_rejects_bad_utf8() {
    // A length prefix of 2 followed by an invalid UTF-8 byte pair.
    let mut buf: Vec<u8> = Vec::new();
    encode_u64(&mut buf, 2);
    buf.push(0xC3);
    buf.push(0x28);
    assert!(decode_str(&buf, 0).is_none());
}

#[test]
fn string_rejects_truncated_payload() {
    let mut buf: Vec<u8> = Vec::new();
    encode_u64(&mut buf, 10);
    buf.push(b'a');
    assert!(decode_str(&buf, 0).is_none());
}
