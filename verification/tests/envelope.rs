//! Tests for the base64 and envelope codec shared by FLAC and MP4 tags.

use triseratops::error::Error;
use triseratops::tag::format::{
    base64_decode, base64_encode, envelope_decode, envelope_decode_with_name,
    envelope_encode_with_name, is_base64, is_newline, parse_envelope, take_base64_with_newline,
};

#[test]
fn test_is_base64() {
    assert!(is_base64(b'A'));
    assert!(is_base64(b'z'));
    assert!(is_base64(b'0'));
    assert!(is_base64(b'+'));
    assert!(is_base64(b'/'));
    assert!(is_base64(b'='));
    assert!(!is_base64(b'\n'));
    assert!(!is_base64(0x00));
    assert!(is_newline(b'\n'));
    assert!(!is_newline(b'A'));
}

#[test]
fn test_take_base64_with_newline() {
    let data = b"QUJD\nRA==\0rest";
    assert_eq!(take_base64_with_newline(data, 0), 9);
}

#[test]
fn test_base64_decode_forgiving_length() {
    // a standard base64 string whose length is 2 modulo 4 decodes without
    // an explicit pad character
    let decoded = base64_decode(b"TWFuTQ").unwrap();
    assert_eq!(decoded, b"ManM");
    // newlines inside the run are ignored
    let decoded = base64_decode(b"TWFu\nTQ").unwrap();
    assert_eq!(decoded, b"ManM");
    // any other length has its last character dropped before decoding
    let decoded = base64_decode(b"TWFuTQA").unwrap();
    assert_eq!(decoded, b"ManM");
}

#[test]
fn test_base64_decode_invalid_fails() {
    // an otherwise-invalid string that does not match the forgiving cases
    // fails with a base64 decode error
    assert_eq!(base64_decode(b"%%%%%%").unwrap_err(), Error::Base64DecodeError);
}

#[test]
fn test_base64_encode_roundtrip() {
    let payload = b"application/octet-stream";
    let mut encoded: Vec<u8> = Vec::new();
    base64_encode(&mut encoded, payload);
    // the encoder emits only base64 characters and newlines, never the
    // input itself
    assert_ne!(&encoded[..], &payload[..]);
    assert!(encoded.iter().all(|&b| is_base64(b) || is_newline(b)));
    let decoded = base64_decode(&encoded).unwrap();
    assert_eq!(decoded, payload);
}

#[test]
fn test_base64_encode_long_payload_lines() {
    // payloads longer than 54 bytes are split into newline-separated
    // 72-character lines
    let payload: Vec<u8> = (0u8..120).collect();
    let mut encoded: Vec<u8> = Vec::new();
    base64_encode(&mut encoded, &payload);
    let lines: Vec<&[u8]> = encoded.split(|&b| b == b'\n').collect();
    assert_eq!(lines.len(), 3);
    assert_eq!(lines[0].len(), 72);
    assert_eq!(lines[1].len(), 72);
    let decoded = base64_decode(&encoded).unwrap();
    assert_eq!(decoded, payload);
}

#[test]
fn test_envelope_roundtrip() {
    let payload = [0x02, 0x04];
    let mut enveloped: Vec<u8> = Vec::new();
    envelope_encode_with_name(&mut enveloped, &payload, "Serato Analysis");
    let (name, content) = envelope_decode(&enveloped).unwrap();
    assert_eq!(name, "Serato Analysis");
    assert_eq!(content, payload);
    let content = envelope_decode_with_name(&enveloped, "Serato Analysis").unwrap();
    assert_eq!(content, payload);
}

#[test]
fn test_envelope_name_mismatch() {
    // bytes enveloped under the Autotags name fail with a name mismatch
    // when the Analysis name is expected
    let payload = [0x02, 0x04];
    let mut enveloped: Vec<u8> = Vec::new();
    envelope_encode_with_name(&mut enveloped, &payload, "Serato Autotags");
    match envelope_decode_with_name(&enveloped, "Serato Analysis").unwrap_err() {
        Error::EnvelopeNameMismatch { expected, actual } => {
            assert_eq!(expected, "Serato Analysis");
            assert_eq!(actual, "Serato Autotags");
        },
        other => panic!("unexpected error: {:?}", other),
    }
}

#[test]
fn test_envelope_malformed_header() {
    // valid base64 of bytes that do not start with the envelope header
    let mut encoded: Vec<u8> = Vec::new();
    base64_encode(&mut encoded, b"not an envelope at all, but long enough");
    assert_eq!(envelope_decode(&encoded).unwrap_err(), Error::EnvelopeParseError);
}

#[test]
fn test_parse_envelope_direct() {
    let mut data: Vec<u8> = Vec::new();
    data.extend_from_slice(b"application/octet-stream\0\0");
    data.extend_from_slice(b"Serato Overview\0");
    data.extend_from_slice(&[1, 2, 3]);
    let (name, content) = parse_envelope(&data).unwrap();
    assert_eq!(name, "Serato Overview");
    assert_eq!(content, vec![1, 2, 3]);
    assert!(parse_envelope(b"application/json\0\0name\0xy").is_err());
}
