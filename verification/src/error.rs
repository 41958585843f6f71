//! The error taxonomy shared by both container readers.

use vstd::prelude::*;

verus! {

/// Everything that can go wrong while reading a container.
///
/// Structural errors (`BadSignature`, `Truncated`, `UnknownTag`,
/// `MagicMismatch`, `InvalidText`) abort a whole parse: the cursor has lost
/// synchronisation with the format and further reads would be meaningless.
/// `DecompressionFailed` and `MissingMetadataLines` are scoped to a single
/// resource; siblings are still extracted.
#[derive(Clone, Copy, Debug, PartialEq, Eq, Structural)]
pub enum FormatError {
    /// The de-obfuscated buffer does not start with the container signature:
    /// wrong key or not a container file.
    BadSignature,
    /// The buffer ended before a required field or record was complete.
    Truncated,
    /// A typed-field tag byte outside the known set.
    UnknownTag,
    /// The per-record literal marker was absent.
    MagicMismatch,
    /// Bytes that had to be UTF-8 were not.
    InvalidText,
    /// A compressed extent was malformed.
    DecompressionFailed,
    /// A lyrics resource had fewer than the four mandatory leading lines.
    MissingMetadataLines,
}

} // verus!
