//! The header reader's primitive cursor operations.

use karaoke_core::emk::EmkReader;
use karaoke_core::error::FormatError;

fn reader(header: Vec<u8>) -> EmkReader {
    EmkReader { data: Vec::new(), header, pos: 0 }
}

#[test]
fn primitive_reads_advance_the_cursor() {
    let mut r = reader(vec![0x11, 0x22, 0x33, 0x44, 0x55, 0x66, 0x77]);
    assert_eq!(r.read_byte(), Ok(0x11));
    assert_eq!(r.pos, 1);
    assert_eq!(r.read_u16(), Ok(0x3322));
    assert_eq!(r.pos, 3);
    assert_eq!(r.read_u32(), Ok(0x77665544));
    assert_eq!(r.pos, 7);
    assert_eq!(r.read_byte(), Err(FormatError::Truncated));
    assert_eq!(r.read_u16(), Err(FormatError::Truncated));
    assert_eq!(r.read_u32(), Err(FormatError::Truncated));
}

#[test]
fn skip_steps_over_bytes() {
    let mut r = reader(vec![0xAA, 0xBB, 0xCC]);
    r.skip(2);
    assert_eq!(r.pos, 2);
    assert_eq!(r.read_byte(), Ok(0xCC));
}

#[test]
fn read_string_is_length_prefixed() {
    let mut r = reader(vec![3, b'a', b'b', b'c', 9]);
    assert_eq!(r.read_string(), Ok(String::from("abc")));
    assert_eq!(r.pos, 4);
    let mut r = reader(vec![5, b'a']);
    assert_eq!(r.read_string(), Err(FormatError::Truncated));
    let mut r = reader(vec![2, 0xFF, 0xFF]);
    assert_eq!(r.read_string(), Err(FormatError::InvalidText));
}

#[test]
fn check_magic_accepts_only_the_literal() {
    let mut r = reader(b"SFDSx".to_vec());
    assert_eq!(r.check_magic(b"SFDS"), Ok(()));
    assert_eq!(r.pos, 4);
    let mut r = reader(b"SFXS".to_vec());
    assert_eq!(r.check_magic(b"SFDS"), Err(FormatError::MagicMismatch));
    assert_eq!(r.pos, 0);
    let mut r = reader(b"SF".to_vec());
    assert_eq!(r.check_magic(b"SFDS"), Err(FormatError::Truncated));
}
