//! Core of a karaoke file player: readers for the two container formats that
//! carry a song's lyrics, scroll timing and MIDI data.
//!
//! The EMK container is an obfuscated, tagged, checksummed, compressed archive
//! of sub-resources; the NCN format splits the same data over a plain-text
//! lyrics file and a binary timing-cursor file.  This crate parses both into
//! shared in-memory models; file loading, playback and display sit outside it.

pub mod emk;
pub mod error;
pub mod field;
pub mod karaoke;
pub mod midi;
pub mod ncn;
pub mod obfuscate;
pub mod scrolling;
pub mod tick;
