//! Lyrics-resource decoding and the note-display model.

use karaoke_core::error::FormatError;
use karaoke_core::midi::MidiDisplay;
use karaoke_core::ncn::NcnLyrics;

#[test]
fn lyrics_parse_fixed_schema() {
    let data = b"Title\nAuthor\nC\n\nline one\nline two".to_vec();
    let l = NcnLyrics::from_bytes(&data).unwrap();
    assert_eq!(l.title, "Title");
    assert_eq!(l.author, "Author");
    assert_eq!(l.key, "C");
    assert_eq!(l.lyrics, "line one\nline two");
}

#[test]
fn lyrics_parse_strips_carriage_returns() {
    let data = b"Title\r\nAuthor\r\nC\r\n\r\nbody\r\nmore".to_vec();
    let l = NcnLyrics::from_bytes(&data).unwrap();
    assert_eq!(l.title, "Title");
    assert_eq!(l.author, "Author");
    assert_eq!(l.key, "C");
    assert_eq!(l.lyrics, "body\nmore");
}

#[test]
fn lyrics_with_exactly_four_lines_has_empty_body() {
    let data = b"T\nA\nG\n\n".to_vec();
    let l = NcnLyrics::from_bytes(&data).unwrap();
    assert_eq!(l.title, "T");
    assert_eq!(l.lyrics, "");
}

#[test]
fn lyrics_with_too_few_lines_error() {
    let data = b"Title\nAuthor\nC".to_vec();
    assert_eq!(
        NcnLyrics::from_bytes(&data).unwrap_err(),
        FormatError::MissingMetadataLines
    );
    assert_eq!(
        NcnLyrics::from_bytes(&Vec::new()).unwrap_err(),
        FormatError::MissingMetadataLines
    );
}

#[test]
fn lyrics_decode_thai_code_page() {
    // 0xA1 is the first Thai consonant in the legacy code page; 0xDB is
    // unmapped and becomes the replacement character.
    let data = vec![0xA1, b'\n', b'A', b'\n', b'C', b'\n', b'\n', 0xA1, 0xDB];
    let l = NcnLyrics::from_bytes(&data).unwrap();
    assert_eq!(l.title, "\u{0E01}");
    assert_eq!(l.lyrics, "\u{0E01}\u{FFFD}");
}

#[test]
fn lyrics_new_packs_fields() {
    let l = NcnLyrics::new(
        String::from("t"),
        String::from("a"),
        String::from("k"),
        String::from("b"),
    );
    assert_eq!(l.title, "t");
    assert_eq!(l.author, "a");
    assert_eq!(l.key, "k");
    assert_eq!(l.lyrics, "b");
}

#[test]
fn display_starts_with_sixteen_empty_tracks() {
    let d = MidiDisplay::new();
    assert_eq!(d.tracks.len(), 16);
    assert!(d.tracks.iter().all(|t| t.notes.is_empty()));
}

#[test]
fn display_note_on_then_off() {
    let mut d = MidiDisplay::new();
    d.note_on(60, 100, 0, 3);
    d.note_on(64, 100, 0, 3);
    assert_eq!(d.tracks[3].notes.len(), 2);
    assert_eq!(d.tracks[3].notes[0].note, 60);
    d.note_off(60, 0, 3);
    assert_eq!(d.tracks[3].notes.len(), 1);
    assert_eq!(d.tracks[3].notes[0].note, 64);
}

#[test]
fn display_note_off_without_match_drops_oldest() {
    let mut d = MidiDisplay::new();
    d.note_on(60, 100, 0, 0);
    d.note_on(64, 100, 0, 0);
    d.note_off(99, 9, 0);
    assert_eq!(d.tracks[0].notes.len(), 1);
    assert_eq!(d.tracks[0].notes[0].note, 64);
}
