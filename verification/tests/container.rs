//! Whole-container behaviour: obfuscation, signature, header records and
//! resource extraction.

use std::io::Write;

use karaoke_core::emk::EmkReader;
use karaoke_core::error::FormatError;
use karaoke_core::obfuscate::{check_signature, xor, EMK_KEY};

fn zlib(data: &[u8]) -> Vec<u8> {
    let mut enc = flate2::write::ZlibEncoder::new(Vec::new(), flate2::Compression::default());
    enc.write_all(data).unwrap();
    enc.finish().unwrap()
}

fn md5_of(data: &[u8]) -> [u8; 16] {
    <md5::Md5 as md5::Digest>::digest(data).into()
}

fn put(d: &mut Vec<u8>, at: usize, bytes: &[u8]) {
    d[at..at + bytes.len()].copy_from_slice(bytes);
}

#[test]
fn xor_is_an_involution() {
    let data: Vec<u8> = (0u8..=255).collect();
    let key = 0x0123456789ABCDEFu64;
    let once = xor(data.clone(), key);
    assert_ne!(once, data);
    let twice = xor(once, key);
    assert_eq!(twice, data);
}

#[test]
fn xor_uses_big_endian_key_bytes_cyclically() {
    let data = vec![0u8; 10];
    let out = xor(data, 0x0102030405060708);
    assert_eq!(out, vec![1, 2, 3, 4, 5, 6, 7, 8, 1, 2]);
}

#[test]
fn signature_check_after_deobfuscation() {
    let mut plain = vec![0u8; 64];
    put(&mut plain, 0, &[0x2E, 0x53, 0x46, 0x44, 0x53]);
    let obfuscated = xor(plain, EMK_KEY);
    assert!(!check_signature(&obfuscated));
    let recovered = xor(obfuscated, EMK_KEY);
    assert!(check_signature(&recovered));
    // A wrong key leaves the signature scrambled.
    let obfuscated = xor(recovered, EMK_KEY);
    let wrong = xor(obfuscated, 0x1122334455667788);
    assert!(!check_signature(&wrong));
}

#[test]
fn reader_rejects_wrong_key_as_bad_signature() {
    let mut plain = vec![0u8; 64];
    put(&mut plain, 0, &[0x2E, 0x53, 0x46, 0x44, 0x53]);
    let with_other_key = xor(plain, 0x1122334455667788);
    assert_eq!(EmkReader::new(with_other_key).unwrap_err(), FormatError::BadSignature);
}

#[test]
fn reader_rejects_short_buffer_as_truncated() {
    let mut plain = vec![0u8; 0x30];
    put(&mut plain, 0, &[0x2E, 0x53, 0x46, 0x44, 0x53]);
    let file = xor(plain, EMK_KEY);
    assert_eq!(EmkReader::new(file).unwrap_err(), FormatError::Truncated);
}

#[test]
fn reader_rejects_header_extent_outside_buffer() {
    let mut plain = vec![0u8; 64];
    put(&mut plain, 0, &[0x2E, 0x53, 0x46, 0x44, 0x53]);
    put(&mut plain, 0x22, &100u64.to_le_bytes());
    put(&mut plain, 0x2A, &200u64.to_le_bytes());
    let file = xor(plain, EMK_KEY);
    assert_eq!(EmkReader::new(file).unwrap_err(), FormatError::Truncated);
}

/// Lays out a container with two resources.  The first inflates cleanly;
/// the second extent holds whatever `second_extent` says.  Returns the
/// obfuscated file plus the first resource's raw bytes.
fn build_two_resource_container(first_hash_valid: bool, second_extent: &[u8]) -> (Vec<u8>, Vec<u8>) {
    let raw1: Vec<u8> = b"hello world".to_vec();
    let comp1 = zlib(&raw1);
    let start1: u16 = 200;
    let end1: u16 = start1 + comp1.len() as u16;
    let start2: u16 = 250;
    let end2: u16 = start2 + second_extent.len() as u16;

    // Header records, relative to the header slice.  The digest of each
    // record is read from the whole file at the record's cursor value, so
    // the first record's fields are padded (by the kind's length) until its
    // digest position falls past the fixed offset area of the file.
    let kind1 = b"LYRICS_RESOURCE_PAD_AAAAA";
    assert_eq!(kind1.len(), 25);
    let mut h: Vec<u8> = Vec::new();
    h.extend_from_slice(b"SFDS");
    h.push(6);
    h.push(kind1.len() as u8);
    h.extend_from_slice(kind1);
    h.push(4);
    h.extend_from_slice(&(raw1.len() as u32).to_le_bytes());
    h.extend_from_slice(&[2, 0]);
    h.extend_from_slice(&[2, 0]);
    h.push(3);
    h.extend_from_slice(&start1.to_le_bytes());
    h.push(3);
    h.extend_from_slice(&end1.to_le_bytes());
    h.extend_from_slice(&[2, 0]);
    h.extend_from_slice(&[2, 0]);
    let hash1_at = h.len();
    assert_eq!(hash1_at, 50);
    // The digest itself lives at the cursor's value in the whole file, but
    // the cursor still steps over sixteen header positions.
    h.extend_from_slice(&[0u8; 16]);
    h.extend_from_slice(&[2, 0]);
    h.extend_from_slice(&[2, 0]);

    h.extend_from_slice(b"SFDS");
    h.push(6);
    h.push(4);
    h.extend_from_slice(b"MIDI");
    h.push(4);
    h.extend_from_slice(&4u32.to_le_bytes());
    h.extend_from_slice(&[2, 0]);
    h.extend_from_slice(&[2, 0]);
    h.push(3);
    h.extend_from_slice(&start2.to_le_bytes());
    h.push(3);
    h.extend_from_slice(&end2.to_le_bytes());
    h.extend_from_slice(&[2, 0]);
    h.extend_from_slice(&[2, 0]);
    let hash2_at = h.len();
    h.extend_from_slice(&[0u8; 16]);
    h.extend_from_slice(&[2, 0]);
    h.extend_from_slice(&[2, 0]);

    let hs: usize = 300;
    let he: usize = hs + h.len();
    let mut d = vec![0u8; he];
    put(&mut d, 0, &[0x2E, 0x53, 0x46, 0x44, 0x53]);
    put(&mut d, 0x22, &(hs as u64).to_le_bytes());
    put(&mut d, 0x2A, &(he as u64).to_le_bytes());
    let mut hash1 = md5_of(&raw1);
    if !first_hash_valid {
        hash1[0] ^= 0xFF;
    }
    put(&mut d, hash1_at, &hash1);
    put(&mut d, hash2_at, &[0xAB; 16]);
    put(&mut d, start1 as usize, &comp1);
    put(&mut d, start2 as usize, second_extent);
    put(&mut d, hs, &h);

    (xor(d, EMK_KEY), raw1)
}

#[test]
fn partial_failure_is_isolated() {
    // The second resource's extent is not a valid compressed stream; the
    // first must still come out whole.
    let (file, raw1) = build_two_resource_container(true, &[0xFF, 0xFE, 0x00, 0x01]);
    let mut reader = EmkReader::new(file).unwrap();
    let descs = reader.read_header().unwrap();
    assert_eq!(descs.len(), 2);
    assert_eq!(descs[0].kind, "LYRICS_RESOURCE_PAD_AAAAA");
    assert_eq!(descs[0].declared_uncompressed_size, raw1.len() as u32);
    assert_eq!(descs[0].content_hash, md5_of(&raw1).to_vec());
    assert_eq!(descs[1].kind, "MIDI");
    for d in &descs {
        assert!(d.extent_start <= d.extent_end);
        assert!((d.extent_end as usize) <= reader.data.len());
    }
    let results = reader.extract_resources(&descs);
    assert_eq!(results.len(), 2);
    let first = results[0].as_ref().unwrap();
    assert_eq!(first.kind, "LYRICS_RESOURCE_PAD_AAAAA");
    assert_eq!(first.bytes, raw1);
    assert!(first.hash_ok);
    assert_eq!(*results[1].as_ref().unwrap_err(), FormatError::DecompressionFailed);
}

#[test]
fn header_parse_is_deterministic() {
    let (file, _) = build_two_resource_container(true, &[0xFF, 0xFE, 0x00, 0x01]);
    let mut r1 = EmkReader::new(file.clone()).unwrap();
    let mut r2 = EmkReader::new(file).unwrap();
    let d1 = r1.read_header().unwrap();
    let d2 = r2.read_header().unwrap();
    assert_eq!(d1.len(), d2.len());
    for (a, b) in d1.iter().zip(d2.iter()) {
        assert_eq!(a.kind, b.kind);
        assert_eq!(a.extent_start, b.extent_start);
        assert_eq!(a.extent_end, b.extent_end);
        assert_eq!(a.content_hash, b.content_hash);
    }
}

#[test]
fn digest_mismatch_is_observable_but_not_fatal() {
    let (file, raw1) = build_two_resource_container(false, &zlib(b"midi"));
    let mut reader = EmkReader::new(file).unwrap();
    let descs = reader.read_header().unwrap();
    let results = reader.extract_resources(&descs);
    let first = results[0].as_ref().unwrap();
    assert_eq!(first.bytes, raw1);
    assert!(!first.hash_ok);
    let second = results[1].as_ref().unwrap();
    assert_eq!(second.bytes, b"midi".to_vec());
    assert!(!second.hash_ok);
}

#[test]
fn missing_record_marker_is_a_magic_mismatch() {
    let mut reader = EmkReader {
        data: vec![0u8; 64],
        header: b"XXXX".to_vec(),
        pos: 0,
    };
    assert_eq!(reader.read_header().unwrap_err(), FormatError::MagicMismatch);
}

#[test]
fn unknown_tag_in_record_aborts_parse() {
    let mut header = b"SFDS".to_vec();
    header.push(5);
    header.extend_from_slice(&[0, 0, 0, 0]);
    let mut reader = EmkReader { data: vec![0u8; 64], header, pos: 0 };
    assert_eq!(reader.read_header().unwrap_err(), FormatError::UnknownTag);
}

#[test]
fn record_cut_short_is_truncated() {
    let mut header = b"SFDS".to_vec();
    header.extend_from_slice(&[6, 3, b'M', b'I']);
    let mut reader = EmkReader { data: vec![0u8; 64], header, pos: 0 };
    assert_eq!(reader.read_header().unwrap_err(), FormatError::Truncated);
}

#[test]
fn extent_outside_buffer_is_truncated() {
    // One record whose extent end lies past the end of the file buffer.
    let mut h: Vec<u8> = Vec::new();
    h.extend_from_slice(b"SFDS");
    h.extend_from_slice(&[6, 1, b'X']);
    h.extend_from_slice(&[4, 0, 0, 0, 0]);
    h.extend_from_slice(&[2, 0]);
    h.extend_from_slice(&[2, 0]);
    h.push(3);
    h.extend_from_slice(&10u16.to_le_bytes());
    h.push(3);
    h.extend_from_slice(&9999u16.to_le_bytes());
    let mut reader = EmkReader { data: vec![0u8; 64], header: h, pos: 0 };
    assert_eq!(reader.read_header().unwrap_err(), FormatError::Truncated);
}
