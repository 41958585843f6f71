//! Typed-field codec behaviour: round trips, tag errors and coercions.

use karaoke_core::emk::EmkReader;
use karaoke_core::error::FormatError;
use karaoke_core::field::{encode_field, TagOut};

fn decode(bytes: Vec<u8>) -> Result<TagOut, FormatError> {
    let mut reader = EmkReader { data: Vec::new(), header: bytes, pos: 0 };
    reader.read_tag()
}

#[test]
fn round_trip_byte() {
    let f = TagOut::Byte(0x7F);
    let enc = encode_field(&f).unwrap();
    assert_eq!(enc, vec![2, 0x7F]);
    assert_eq!(decode(enc), Ok(f));
}

#[test]
fn round_trip_short() {
    let f = TagOut::Short(0x1234);
    let enc = encode_field(&f).unwrap();
    assert_eq!(enc, vec![3, 0x34, 0x12]);
    assert_eq!(decode(enc), Ok(f));
}

#[test]
fn round_trip_int() {
    let f = TagOut::Int(0xDEADBEEF);
    let enc = encode_field(&f).unwrap();
    assert_eq!(enc, vec![4, 0xEF, 0xBE, 0xAD, 0xDE]);
    assert_eq!(decode(enc), Ok(f));
}

#[test]
fn round_trip_string() {
    let f = TagOut::String(String::from("HEADER"));
    let enc = encode_field(&f).unwrap();
    assert_eq!(enc, vec![6, 6, b'H', b'E', b'A', b'D', b'E', b'R']);
    assert_eq!(decode(enc), Ok(f));
}

#[test]
fn round_trip_string_non_ascii() {
    // Two UTF-8 bytes, one character: the length prefix counts bytes.
    let f = TagOut::String(String::from("\u{e9}"));
    let enc = encode_field(&f).unwrap();
    assert_eq!(enc, vec![6, 2, 0xC3, 0xA9]);
    assert_eq!(decode(enc), Ok(f));
}

#[test]
fn encode_refuses_overlong_string() {
    let f = TagOut::String("x".repeat(256));
    assert_eq!(encode_field(&f), None);
}

#[test]
fn unknown_tags_error() {
    for t in [0u8, 1, 5, 7, 0xFF] {
        assert_eq!(decode(vec![t, 0, 0, 0, 0]), Err(FormatError::UnknownTag));
    }
}

#[test]
fn truncated_payload_errors() {
    assert_eq!(decode(vec![]), Err(FormatError::Truncated));
    assert_eq!(decode(vec![2]), Err(FormatError::Truncated));
    assert_eq!(decode(vec![3, 0x01]), Err(FormatError::Truncated));
    assert_eq!(decode(vec![4, 1, 2, 3]), Err(FormatError::Truncated));
    assert_eq!(decode(vec![6, 3, b'a']), Err(FormatError::Truncated));
}

#[test]
fn string_field_must_be_utf8() {
    assert_eq!(decode(vec![6, 1, 0xFF]), Err(FormatError::InvalidText));
}

#[test]
fn numeric_coercions() {
    assert_eq!(TagOut::Byte(7).to_u8(), 7);
    assert_eq!(TagOut::Byte(7).to_u16(), 7);
    assert_eq!(TagOut::Byte(7).to_u32(), 7);
    assert_eq!(TagOut::Short(0x0102).to_u8(), 0x02);
    assert_eq!(TagOut::Short(0x0102).to_u32(), 0x0102);
    assert_eq!(TagOut::Int(0x01020304).to_u8(), 0x04);
    assert_eq!(TagOut::Int(0x01020304).to_u16(), 0x0304);
    assert_eq!(TagOut::Int(0x01020304).to_u32(), 0x01020304);
}

#[test]
fn string_coercions_parse_decimal() {
    assert_eq!(TagOut::String(String::from("42")).to_u8(), 42);
    assert_eq!(TagOut::String(String::from("300")).to_u16(), 300);
    assert_eq!(TagOut::String(String::from("+007")).to_u16(), 7);
    assert_eq!(TagOut::String(String::from("4294967295")).to_u32(), u32::MAX);
}

#[test]
fn to_string_renders_decimal() {
    assert_eq!(TagOut::Byte(0).to_string(), "0");
    assert_eq!(TagOut::Short(65535).to_string(), "65535");
    assert_eq!(TagOut::Int(4096).to_string(), "4096");
    assert_eq!(TagOut::String(String::from("abc")).to_string(), "abc");
}
