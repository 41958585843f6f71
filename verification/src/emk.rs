//! The EMK container: an obfuscated, tagged, checksummed, compressed archive
//! of one song's resources.
//!
//! Reading proceeds in layers: the whole buffer is de-obfuscated and its
//! signature checked; two fixed-position offsets delimit the header; the
//! header is a run of self-describing records, one per embedded resource;
//! each record's extent is then sliced out of the buffer, inflated and
//! checked against its content digest.

use vstd::bytes::{spec_u16_from_le_bytes, spec_u32_from_le_bytes, spec_u64_from_le_bytes};
use vstd::prelude::*;

use crate::error::FormatError;
use crate::field::{
    bytes_to_string, field_label, parse_u32_dec, parses_as_uint, spec_parse_field,
    spec_parse_field_error, uint_value, FieldValue, TagOut,
};
use crate::ncn::{NcnCursor, NcnLyrics};
use crate::obfuscate::{has_signature, xor, xor_with_key, EMK_KEY};
use vstd::utf8::{decode_utf8, valid_utf8};

verus! {

/// The container-level signature and version strings.
pub struct EmkHeader {
    pub signature: String,
    pub version: String,
}

/// Song metadata carried by the container's own metadata resource.
pub struct EmkInfo {
    /// Catalogue code of the song.
    pub code: String,
    /// Kind of song.
    pub song_type: String,
    /// Kind of subtitles.
    pub subtitle_type: String,
    /// Song title.
    pub title: String,
    /// Musical key of the song.
    pub key: String,
    /// Artist of the song.
    pub artist: String,
    /// Language of the lyrics.
    pub language: String,
    /// MIDI channel carrying the vocal line.
    pub vocal_channel: u8,
    /// Name of the file the container was built from.
    pub original_file: String,
    /// Title as the lyrics resource spells it.
    pub lyric_title: String,
    /// Start time of the song.
    pub start_time: u32,
    /// End time of the song.
    pub end_time: u32,
    /// Tempo of the song.
    pub tempo: u32,
}

/// A whole container, decoded into the shared models.
pub struct Emk {
    pub header: EmkHeader,
    pub info: EmkInfo,
    pub lyrics: NcnLyrics,
    pub cursor: NcnCursor,
    pub midi: Vec<u8>,
}

/// Where the header-start offset lives in the de-obfuscated buffer.
pub const HEADER_START_POS: usize = 0x22;

/// Where the header-end offset lives in the de-obfuscated buffer.
pub const HEADER_END_POS: usize = 0x2a;

/// The header-start offset a de-obfuscated buffer declares.
pub open spec fn spec_header_start(d: Seq<u8>) -> u64
    recommends
        d.len() >= 0x32,
{
    spec_u64_from_le_bytes(d.subrange(0x22, 0x2a))
}

/// The header-end offset a de-obfuscated buffer declares.
pub open spec fn spec_header_end(d: Seq<u8>) -> u64
    recommends
        d.len() >= 0x32,
{
    spec_u64_from_le_bytes(d.subrange(0x2a, 0x32))
}

/// Whether the declared header extent lies inside the buffer.
pub open spec fn header_extent_ok(d: Seq<u8>) -> bool {
    d.len() >= 0x32 && spec_header_start(d) <= spec_header_end(d) && spec_header_end(d)
        <= d.len()
}

/// A reader over one de-obfuscated container buffer: the whole buffer, the
/// header slice cut out of it, and the read cursor into the header.
#[derive(Debug)]
pub struct EmkReader {
    pub data: Vec<u8>,
    pub header: Vec<u8>,
    pub pos: usize,
}

/// Reads a 64-bit little-endian value out of a buffer.
fn read_u64_at(data: &Vec<u8>, at: usize) -> (r: u64)
    requires
        at + 8 <= data@.len(),
    ensures
        r == spec_u64_from_le_bytes(data@.subrange(at as int, at as int + 8)),
{
    let _n = data.len();
    let s = vstd::slice::slice_subrange(data.as_slice(), at, at + 8);
    vstd::bytes::u64_from_le_bytes(s)
}

/// Copies `data[from..to]` into a fresh buffer.
fn copy_range(data: &Vec<u8>, from: usize, to: usize) -> (r: Vec<u8>)
    requires
        from <= to <= data@.len(),
    ensures
        r@ == data@.subrange(from as int, to as int),
{
    let mut out: Vec<u8> = Vec::new();
    let mut i = from;
    while i < to
        invariant
            from <= i <= to <= data@.len(),
            out@.len() == i - from,
            forall|j: int| 0 <= j < out@.len() ==> out@[j] == data@[from + j],
        decreases to - i,
    {
        out.push(data[i]);
        i = i + 1;
    }
    proof {
        assert(out@ =~= data@.subrange(from as int, to as int));
    }
    out
}

impl EmkReader {
    /// De-obfuscates a raw container buffer with the published key, checks
    /// the signature, and cuts out the header extent the fixed-position
    /// offsets declare.
    pub fn new(data: Vec<u8>) -> (r: Result<EmkReader, FormatError>)
        ensures
            ({
                let d = xor_with_key(data@, EMK_KEY);
                match r {
                    Ok(reader) => {
                        &&& has_signature(d)
                        &&& header_extent_ok(d)
                        &&& reader.data@ == d
                        &&& reader.header@ == d.subrange(
                            spec_header_start(d) as int,
                            spec_header_end(d) as int,
                        )
                        &&& reader.pos == 0
                    },
                    Err(e) => {
                        if !has_signature(d) {
                            e == FormatError::BadSignature
                        } else {
                            e == FormatError::Truncated && !header_extent_ok(d)
                        }
                    },
                }
            }),
    {
        let data = xor(data, EMK_KEY);
        if !crate::obfuscate::check_signature(&data) {
            return Err(FormatError::BadSignature);
        }
        if data.len() < 0x32 {
            return Err(FormatError::Truncated);
        }
        let header_start = read_u64_at(&data, HEADER_START_POS);
        let header_end = read_u64_at(&data, HEADER_END_POS);
        if !(header_start <= header_end && header_end <= data.len() as u64) {
            return Err(FormatError::Truncated);
        }
        let header = copy_range(&data, header_start as usize, header_end as usize);
        Ok(EmkReader { data, header, pos: 0 })
    }

    /// Checks that the next header bytes are exactly the given literal and
    /// steps over them; a record stream that does not show its marker here
    /// has lost synchronisation.
    pub fn check_magic(&mut self, magic: &[u8]) -> (r: Result<(), FormatError>)
        ensures
            final (self).data == old(self).data,
            final (self).header == old(self).header,
            match r {
                Ok(_) => {
                    &&& old(self).pos + magic@.len() <= old(self).header@.len()
                    &&& old(self).header@.subrange(
                        old(self).pos as int,
                        old(self).pos + magic@.len(),
                    ) == magic@
                    &&& final (self).pos == old(self).pos + magic@.len()
                },
                Err(e) => {
                    &&& final (self).pos == old(self).pos
                    &&& if old(self).pos + magic@.len() > old(self).header@.len() {
                        e == FormatError::Truncated
                    } else {
                        e == FormatError::MagicMismatch && old(self).header@.subrange(
                            old(self).pos as int,
                            old(self).pos + magic@.len(),
                        ) != magic@
                    }
                },
            },
    {
        if magic.len() > self.header.len() || self.pos > self.header.len() - magic.len() {
            return Err(FormatError::Truncated);
        }
        let ghost sub: Seq<u8> = self.header@.subrange(
            self.pos as int,
            self.pos + magic@.len(),
        );
        let mut j: usize = 0;
        while j < magic.len()
            invariant
                j <= magic@.len(),
                self.header@.len() <= usize::MAX,
                self.pos + magic@.len() <= self.header@.len(),
                sub == self.header@.subrange(self.pos as int, self.pos + magic@.len()),
                forall|k: int| 0 <= k < j ==> sub[k] == magic@[k],
            decreases magic@.len() - j,
        {
            if self.header[self.pos + j] != magic[j] {
                proof {
                    assert(sub[j as int] != magic@[j as int]);
                }
                return Err(FormatError::MagicMismatch);
            }
            j = j + 1;
        }
        proof {
            assert(sub =~= magic@);
        }
        self.pos = self.pos + magic.len();
        Ok(())
    }

    /// Steps over `n` header bytes without reading them.
    pub fn skip(&mut self, n: usize)
        requires
            old(self).pos + n <= usize::MAX,
        ensures
            final (self).data == old(self).data,
            final (self).header == old(self).header,
            final (self).pos == old(self).pos + n,
    {
        self.pos = self.pos + n;
    }

    /// Reads the next header byte.
    pub fn read_byte(&mut self) -> (r: Result<u8, FormatError>)
        ensures
            final (self).data == old(self).data,
            final (self).header == old(self).header,
            match r {
                Ok(b) => {
                    &&& old(self).pos < old(self).header@.len()
                    &&& b == old(self).header@[old(self).pos as int]
                    &&& final (self).pos == old(self).pos + 1
                },
                Err(e) => {
                    &&& e == FormatError::Truncated
                    &&& old(self).pos >= old(self).header@.len()
                    &&& final (self).pos == old(self).pos
                },
            },
    {
        if self.pos < self.header.len() {
            let b = self.header[self.pos];
            self.pos = self.pos + 1;
            Ok(b)
        } else {
            Err(FormatError::Truncated)
        }
    }

    /// Reads the next two header bytes as a little-endian 16-bit value.
    pub fn read_u16(&mut self) -> (r: Result<u16, FormatError>)
        ensures
            final (self).data == old(self).data,
            final (self).header == old(self).header,
            match r {
                Ok(v) => {
                    &&& old(self).pos + 2 <= old(self).header@.len()
                    &&& v == spec_u16_from_le_bytes(
                        old(self).header@.subrange(old(self).pos as int, old(self).pos + 2),
                    )
                    &&& final (self).pos == old(self).pos + 2
                },
                Err(e) => {
                    &&& e == FormatError::Truncated
                    &&& old(self).pos + 2 > old(self).header@.len()
                    &&& final (self).pos == old(self).pos
                },
            },
    {
        if self.header.len() >= 2 && self.pos <= self.header.len() - 2 {
            let s = vstd::slice::slice_subrange(self.header.as_slice(), self.pos, self.pos + 2);
            let v = vstd::bytes::u16_from_le_bytes(s);
            self.pos = self.pos + 2;
            Ok(v)
        } else {
            Err(FormatError::Truncated)
        }
    }

    /// Reads the next four header bytes as a little-endian 32-bit value.
    pub fn read_u32(&mut self) -> (r: Result<u32, FormatError>)
        ensures
            final (self).data == old(self).data,
            final (self).header == old(self).header,
            match r {
                Ok(v) => {
                    &&& old(self).pos + 4 <= old(self).header@.len()
                    &&& v == spec_u32_from_le_bytes(
                        old(self).header@.subrange(old(self).pos as int, old(self).pos + 4),
                    )
                    &&& final (self).pos == old(self).pos + 4
                },
                Err(e) => {
                    &&& e == FormatError::Truncated
                    &&& old(self).pos + 4 > old(self).header@.len()
                    &&& final (self).pos == old(self).pos
                },
            },
    {
        if self.header.len() >= 4 && self.pos <= self.header.len() - 4 {
            let s = vstd::slice::slice_subrange(self.header.as_slice(), self.pos, self.pos + 4);
            let v = vstd::bytes::u32_from_le_bytes(s);
            self.pos = self.pos + 4;
            Ok(v)
        } else {
            Err(FormatError::Truncated)
        }
    }

    /// Reads a length-prefixed UTF-8 string from the header: one length
    /// byte, then that many bytes of text.
    pub fn read_string(&mut self) -> (r: Result<String, FormatError>)
        ensures
            final (self).data == old(self).data,
            final (self).header == old(self).header,
            ({
                let h = old(self).header@;
                let at = old(self).pos as int;
                match r {
                    Ok(s) => {
                        &&& at + 1 <= h.len()
                        &&& at + 1 + h[at] <= h.len()
                        &&& valid_utf8(h.subrange(at + 1, at + 1 + h[at]))
                        &&& s@ == decode_utf8(h.subrange(at + 1, at + 1 + h[at]))
                        &&& final (self).pos == at + 1 + h[at]
                    },
                    Err(e) => {
                        if at + 1 > h.len() || at + 1 + (if at + 1 <= h.len() {
                            h[at] as int
                        } else {
                            0int
                        }) > h.len() {
                            e == FormatError::Truncated
                        } else {
                            e == FormatError::InvalidText && !valid_utf8(
                                h.subrange(at + 1, at + 1 + h[at]),
                            )
                        }
                    },
                }
            }),
    {
        if self.pos >= self.header.len() {
            return Err(FormatError::Truncated);
        }
        let n = self.header[self.pos] as usize;
        if n > self.header.len() - (self.pos + 1) {
            return Err(FormatError::Truncated);
        }
        let bytes = copy_range(&self.header, self.pos + 1, self.pos + 1 + n);
        match bytes_to_string(bytes) {
            Some(s) => {
                self.pos = self.pos + 1 + n;
                Ok(s)
            },
            None => Err(FormatError::InvalidText),
        }
    }

    /// Reads one typed field: the tag byte, then the payload its kind
    /// demands, exactly as [`spec_parse_field`] describes.
    pub fn read_tag(&mut self) -> (r: Result<TagOut, FormatError>)
        ensures
            final (self).data == old(self).data,
            final (self).header == old(self).header,
            ({
                let h = old(self).header@;
                let at = old(self).pos as int;
                match r {
                    Ok(f) => {
                        &&& spec_parse_field(h, at) matches Some((v, n))
                        &&& spec_parse_field(h, at) == Some((f@, final (self).pos - at))
                    },
                    Err(e) => {
                        &&& spec_parse_field(h, at) is None
                        &&& e == spec_parse_field_error(h, at)
                    },
                }
            }),
    {
        let ghost h = self.header@;
        let ghost at = self.pos as int;
        let tag = match self.read_byte() {
            Ok(b) => b,
            Err(e) => {
                return Err(e);
            },
        };
        if tag == 2 {
            match self.read_byte() {
                Ok(b) => Ok(TagOut::Byte(b)),
                Err(e) => Err(e),
            }
        } else if tag == 3 {
            match self.read_u16() {
                Ok(v) => Ok(TagOut::Short(v)),
                Err(e) => Err(e),
            }
        } else if tag == 4 {
            match self.read_u32() {
                Ok(v) => Ok(TagOut::Int(v)),
                Err(e) => Err(e),
            }
        } else if tag == 6 {
            match self.read_string() {
                Ok(s) => Ok(TagOut::String(s)),
                Err(e) => Err(e),
            }
        } else {
            self.pos = self.pos - 1;
            Err(FormatError::UnknownTag)
        }
    }
}

/// Narrows a typed field to 32 bits as the header's coercion rules allow:
/// integers widen or pass through, a string must spell a value that fits.
pub open spec fn spec_field_u32(f: FieldValue) -> Option<u32> {
    match f {
        FieldValue::Byte(b) => Some(b as u32),
        FieldValue::Short(v) => Some(v as u32),
        FieldValue::Int(v) => Some(v),
        FieldValue::Text(t) => if parses_as_uint(t) && uint_value(t) <= u32::MAX {
            Some(uint_value(t) as u32)
        } else {
            None
        },
    }
}

/// Narrows a typed field to 16 bits: wider integers truncate by design, a
/// string must spell a value that fits.
pub open spec fn spec_field_u16(f: FieldValue) -> Option<u16> {
    match f {
        FieldValue::Byte(b) => Some(b as u16),
        FieldValue::Short(v) => Some(v),
        FieldValue::Int(v) => Some(v as u16),
        FieldValue::Text(t) => if parses_as_uint(t) && uint_value(t) <= u16::MAX {
            Some(uint_value(t) as u16)
        } else {
            None
        },
    }
}

/// Exec form of [`spec_field_u32`]; a string that does not spell a fitting
/// number is text where a number was required.
fn field_to_u32(f: &TagOut) -> (r: Result<u32, FormatError>)
    ensures
        r == match spec_field_u32(f@) {
            Some(v) => Ok::<u32, FormatError>(v),
            None => Err::<u32, FormatError>(FormatError::InvalidText),
        },
{
    match f {
        TagOut::Byte(b) => Ok(*b as u32),
        TagOut::Short(v) => Ok(*v as u32),
        TagOut::Int(v) => Ok(*v),
        TagOut::String(s) => match parse_u32_dec(s) {
            Some(v) => Ok(v),
            None => Err(FormatError::InvalidText),
        },
    }
}

/// Exec form of [`spec_field_u16`].
fn field_to_u16(f: &TagOut) -> (r: Result<u16, FormatError>)
    ensures
        r == match spec_field_u16(f@) {
            Some(v) => Ok::<u16, FormatError>(v),
            None => Err::<u16, FormatError>(FormatError::InvalidText),
        },
{
    match f {
        TagOut::Byte(b) => Ok(*b as u16),
        TagOut::Short(v) => Ok(*v),
        TagOut::Int(v) => Ok(*v as u16),
        TagOut::String(s) => match parse_u32_dec(s) {
            Some(v) => {
                if v <= 0xffff {
                    Ok(v as u16)
                } else {
                    Err(FormatError::InvalidText)
                }
            },
            None => Err(FormatError::InvalidText),
        },
    }
}

/// One header record: everything the container says about one embedded
/// resource.  The six unknown fields have no decoded meaning; they are kept
/// as read so a record can be written back unchanged.
#[derive(Debug)]
pub struct ResourceDescriptor {
    /// The resource's label, e.g. the name of the metadata block.  The set
    /// of labels in the wild is open: it is matched, never enumerated.
    pub kind: String,
    /// The size the resource claims to have once inflated.
    pub declared_uncompressed_size: u32,
    pub unknown_a: TagOut,
    pub unknown_b: TagOut,
    /// First byte of the resource's extent in the de-obfuscated buffer.
    pub extent_start: u16,
    /// One past the last byte of the resource's extent.
    pub extent_end: u16,
    pub unknown_c: TagOut,
    pub unknown_d: TagOut,
    /// The 128-bit digest the container states for the inflated resource.
    pub content_hash: Vec<u8>,
    pub unknown_e: TagOut,
    pub unknown_f: TagOut,
}

/// The mathematical value of a header record.
pub struct DescriptorView {
    pub kind: Seq<char>,
    pub declared_uncompressed_size: u32,
    pub unknown_a: FieldValue,
    pub unknown_b: FieldValue,
    pub extent_start: u16,
    pub extent_end: u16,
    pub unknown_c: FieldValue,
    pub unknown_d: FieldValue,
    pub content_hash: Seq<u8>,
    pub unknown_e: FieldValue,
    pub unknown_f: FieldValue,
}

impl View for ResourceDescriptor {
    type V = DescriptorView;

    open spec fn view(&self) -> DescriptorView {
        DescriptorView {
            kind: self.kind@,
            declared_uncompressed_size: self.declared_uncompressed_size,
            unknown_a: self.unknown_a@,
            unknown_b: self.unknown_b@,
            extent_start: self.extent_start,
            extent_end: self.extent_end,
            unknown_c: self.unknown_c@,
            unknown_d: self.unknown_d@,
            content_hash: self.content_hash@,
            unknown_e: self.unknown_e@,
            unknown_f: self.unknown_f@,
        }
    }
}

/// The four-byte literal that opens every header record.
pub open spec fn spec_marker() -> Seq<u8> {
    seq![0x53u8, 0x46u8, 0x44u8, 0x53u8]
}

/// The opening run of a header record at position `at`: the four-byte
/// marker, the resource's kind, its declared size (coerced to 32 bits), and
/// the first two opaque fields.  Yields the parsed values and the position
/// after them.
pub open spec fn spec_parse_record_head(h: Seq<u8>, d: Seq<u8>, at: int) -> Result<
    (FieldValue, u32, FieldValue, FieldValue, int),
    FormatError,
>
    recommends
        0 <= at,
{
    if at + 4 > h.len() {
        Err(FormatError::Truncated)
    } else if h.subrange(at, at + 4) != spec_marker() {
        Err(FormatError::MagicMismatch)
    } else {
        match spec_parse_field(h, at + 4) {
            None => Err(spec_parse_field_error(h, at + 4)),
            Some((kind_f, n0)) => {
                let p1 = at + 4 + n0;
                match spec_parse_field(h, p1) {
                    None => Err(spec_parse_field_error(h, p1)),
                    Some((size_f, n1)) => match spec_field_u32(size_f) {
                        None => Err(FormatError::InvalidText),
                        Some(size) => {
                            let p2 = p1 + n1;
                            match spec_parse_field(h, p2) {
                                None => Err(spec_parse_field_error(h, p2)),
                                Some((unk_a, n2)) => {
                                    let p3 = p2 + n2;
                                    match spec_parse_field(h, p3) {
                                        None => Err(spec_parse_field_error(h, p3)),
                                        Some((unk_b, n3)) => Ok(
                                            (kind_f, size, unk_a, unk_b, p3 + n3),
                                        ),
                                    }
                                },
                            }
                        },
                    },
                }
            },
        }
    }
}

/// The extent fields of a record, read at position `p4`: start and end,
/// each coerced to 16 bits, with the position after them.  An extent that
/// does not lie inside the buffer `d` is reported as the stream ending
/// early, so no later read can run off the buffer.
pub open spec fn spec_parse_record_extents(h: Seq<u8>, d: Seq<u8>, p4: int) -> Result<
    (u16, u16, int),
    FormatError,
> {
    match spec_parse_field(h, p4) {
        None => Err(spec_parse_field_error(h, p4)),
        Some((start_f, n4)) => match spec_field_u16(start_f) {
            None => Err(FormatError::InvalidText),
            Some(start) => {
                let p5 = p4 + n4;
                match spec_parse_field(h, p5) {
                    None => Err(spec_parse_field_error(h, p5)),
                    Some((end_f, n5)) => match spec_field_u16(end_f) {
                        None => Err(FormatError::InvalidText),
                        Some(end) => {
                            if !(start <= end && end <= d.len()) {
                                Err(FormatError::Truncated)
                            } else {
                                Ok((start, end, p5 + n5))
                            }
                        },
                    },
                }
            },
        },
    }
}

/// The tail of a record from position `p6`: two opaque fields, then the 16
/// raw digest bytes, then the last two opaque fields.  The digest is read
/// from the whole-file buffer `d` at the current cursor value — a quirk of
/// the format's own reader that the offsets are built around — while every
/// typed field comes from the header slice `h`.
pub open spec fn spec_parse_record_tail(h: Seq<u8>, d: Seq<u8>, p6: int) -> Result<
    (FieldValue, FieldValue, Seq<u8>, FieldValue, FieldValue, int),
    FormatError,
> {
    match spec_parse_field(h, p6) {
        None => Err(spec_parse_field_error(h, p6)),
        Some((unk_c, n6)) => {
            let p7 = p6 + n6;
            match spec_parse_field(h, p7) {
                None => Err(spec_parse_field_error(h, p7)),
                Some((unk_d, n7)) => {
                    let p8 = p7 + n7;
                    if p8 + 16 > d.len() {
                        Err(FormatError::Truncated)
                    } else {
                        let hash = d.subrange(p8, p8 + 16);
                        let p9 = p8 + 16;
                        match spec_parse_field(h, p9) {
                            None => Err(spec_parse_field_error(h, p9)),
                            Some((unk_e, n8)) => {
                                let p10 = p9 + n8;
                                match spec_parse_field(h, p10) {
                                    None => Err(spec_parse_field_error(h, p10)),
                                    Some((unk_f, n9)) => Ok(
                                        (unk_c, unk_d, hash, unk_e, unk_f, p10 + n9),
                                    ),
                                }
                            },
                        }
                    }
                },
            }
        },
    }
}

/// One whole header record at position `at`, with the number of header
/// bytes it spans: the opening run, the extents, and the tail, in strict
/// order.
#[verifier::opaque]
pub open spec fn spec_parse_record(h: Seq<u8>, d: Seq<u8>, at: int) -> Result<
    (DescriptorView, int),
    FormatError,
>
    recommends
        0 <= at,
{
    match spec_parse_record_head(h, d, at) {
        Err(e) => Err(e),
        Ok((kind_f, size, unk_a, unk_b, p4)) => match spec_parse_record_extents(h, d, p4) {
            Err(e) => Err(e),
            Ok((start, end, p6)) => match spec_parse_record_tail(h, d, p6) {
                Err(e) => Err(e),
                Ok((unk_c, unk_d, hash, unk_e, unk_f, p_end)) => Ok(
                    (
                        DescriptorView {
                            kind: field_label(kind_f),
                            declared_uncompressed_size: size,
                            unknown_a: unk_a,
                            unknown_b: unk_b,
                            extent_start: start,
                            extent_end: end,
                            unknown_c: unk_c,
                            unknown_d: unk_d,
                            content_hash: hash,
                            unknown_e: unk_e,
                            unknown_f: unk_f,
                        },
                        p_end - at,
                    ),
                ),
            },
        },
    }
}

/// A record that parses spans at least its marker and ends inside the
/// header.
proof fn lemma_record_advance(h: Seq<u8>, d: Seq<u8>, at: int)
    requires
        0 <= at,
    ensures
        spec_parse_record(h, d, at) matches Ok((rec, n)) ==> 1 <= n && at + n <= h.len(),
{
    reveal(spec_parse_record);
}

#[via_fn]
proof fn spec_parse_header_decreases(h: Seq<u8>, d: Seq<u8>, at: int) {
    lemma_record_advance(h, d, at);
}

/// The whole record stream from header position `at` on: record after
/// record until the header slice is exhausted, or the first error met.
pub open spec fn spec_parse_header(h: Seq<u8>, d: Seq<u8>, at: int) -> Result<
    Seq<DescriptorView>,
    FormatError,
>
    recommends
        0 <= at,
    decreases h.len() - at when 0 <= at via spec_parse_header_decreases
{
    if at >= h.len() {
        Ok(Seq::empty())
    } else {
        match spec_parse_record(h, d, at) {
            Err(e) => Err(e),
            Ok((rec, n)) => match spec_parse_header(h, d, at + n) {
                Err(e) => Err(e),
                Ok(rest) => Ok(seq![rec] + rest),
            },
        }
    }
}

/// Parsing is a function of the bytes alone: two parses of the same header
/// and buffer yield the same descriptor sequence, in the same order.
pub proof fn lemma_header_parse_deterministic(
    h: Seq<u8>,
    d: Seq<u8>,
    at: int,
    r1: Result<Seq<DescriptorView>, FormatError>,
    r2: Result<Seq<DescriptorView>, FormatError>,
)
    requires
        r1 == spec_parse_header(h, d, at),
        r2 == spec_parse_header(h, d, at),
    ensures
        r1 == r2,
{
}

/// Every descriptor a header parse yields has an extent that lies inside
/// the buffer: its start at or before its end, its end at or before the
/// buffer's length.
pub proof fn lemma_extent_containment(h: Seq<u8>, d: Seq<u8>, at: int, descs: Seq<DescriptorView>)
    requires
        0 <= at,
        spec_parse_header(h, d, at) == Ok::<Seq<DescriptorView>, FormatError>(descs),
    ensures
        forall|i: int|
            0 <= i < descs.len() ==> #[trigger] descs[i].extent_start <= descs[i].extent_end
                && descs[i].extent_end <= d.len(),
    decreases h.len() - at,
{
    reveal(spec_parse_record);
    if at >= h.len() {
    } else {
        match spec_parse_record(h, d, at) {
            Err(_) => {},
            Ok((rec, n)) => {
                lemma_record_advance(h, d, at);
                match spec_parse_header(h, d, at + n) {
                    Err(_) => {},
                    Ok(rest) => {
                        lemma_extent_containment(h, d, at + n, rest);
                        assert(descs == seq![rec] + rest);
                        assert(rec.extent_start <= rec.extent_end && rec.extent_end <= d.len());
                        assert(forall|i: int|
                            1 <= i < descs.len() ==> descs[i] == rest[i - 1]);
                    },
                }
            },
        }
    }
}

impl EmkReader {
    /// Reads the opening run of a record: marker, kind, declared size, and
    /// the first two opaque fields.
    fn read_record_head(&mut self) -> (r: Result<(TagOut, u32, TagOut, TagOut), FormatError>)
        ensures
            final (self).data == old(self).data,
            final (self).header == old(self).header,
            ({
                let h = old(self).header@;
                let d = old(self).data@;
                let at = old(self).pos as int;
                match r {
                    Ok(parts) => spec_parse_record_head(h, d, at) == Ok::<
                        (FieldValue, u32, FieldValue, FieldValue, int),
                        FormatError,
                    >((parts.0@, parts.1, parts.2@, parts.3@, final (self).pos as int)),
                    Err(e) => spec_parse_record_head(h, d, at) == Err::<
                        (FieldValue, u32, FieldValue, FieldValue, int),
                        FormatError,
                    >(e),
                }
            }),
    {
        let marker: [u8; 4] = [0x53, 0x46, 0x44, 0x53];
        proof {
            assert(marker@ =~= spec_marker());
        }
        match self.check_magic(marker.as_slice()) {
            Ok(_) => {},
            Err(e) => {
                return Err(e);
            },
        }
        let kind_f = match self.read_tag() {
            Ok(f) => f,
            Err(e) => {
                return Err(e);
            },
        };
        let size_f = match self.read_tag() {
            Ok(f) => f,
            Err(e) => {
                return Err(e);
            },
        };
        let size = match field_to_u32(&size_f) {
            Ok(v) => v,
            Err(e) => {
                return Err(e);
            },
        };
        let unknown_a = match self.read_tag() {
            Ok(f) => f,
            Err(e) => {
                return Err(e);
            },
        };
        let unknown_b = match self.read_tag() {
            Ok(f) => f,
            Err(e) => {
                return Err(e);
            },
        };
        Ok((kind_f, size, unknown_a, unknown_b))
    }

    /// Reads a record's extent fields and holds them to the buffer: an
    /// extent outside it is a truncation.
    fn read_record_extents(&mut self) -> (r: Result<(u16, u16), FormatError>)
        ensures
            final (self).data == old(self).data,
            final (self).header == old(self).header,
            ({
                let h = old(self).header@;
                let d = old(self).data@;
                let at = old(self).pos as int;
                match r {
                    Ok(parts) => spec_parse_record_extents(h, d, at) == Ok::<
                        (u16, u16, int),
                        FormatError,
                    >((parts.0, parts.1, final (self).pos as int)),
                    Err(e) => spec_parse_record_extents(h, d, at) == Err::<
                        (u16, u16, int),
                        FormatError,
                    >(e),
                }
            }),
    {
        let start_f = match self.read_tag() {
            Ok(f) => f,
            Err(e) => {
                return Err(e);
            },
        };
        let extent_start = match field_to_u16(&start_f) {
            Ok(v) => v,
            Err(e) => {
                return Err(e);
            },
        };
        let end_f = match self.read_tag() {
            Ok(f) => f,
            Err(e) => {
                return Err(e);
            },
        };
        let extent_end = match field_to_u16(&end_f) {
            Ok(v) => v,
            Err(e) => {
                return Err(e);
            },
        };
        if !(extent_start <= extent_end && (extent_end as usize) <= self.data.len()) {
            return Err(FormatError::Truncated);
        }
        Ok((extent_start, extent_end))
    }

    /// Reads a record's tail: two opaque fields, the raw digest bytes, and
    /// the last two opaque fields.
    fn read_record_tail(&mut self) -> (r: Result<
        (TagOut, TagOut, Vec<u8>, TagOut, TagOut),
        FormatError,
    >)
        ensures
            final (self).data == old(self).data,
            final (self).header == old(self).header,
            ({
                let h = old(self).header@;
                let d = old(self).data@;
                let at = old(self).pos as int;
                match r {
                    Ok(parts) => spec_parse_record_tail(h, d, at) == Ok::<
                        (FieldValue, FieldValue, Seq<u8>, FieldValue, FieldValue, int),
                        FormatError,
                    >(
                        (
                            parts.0@,
                            parts.1@,
                            parts.2@,
                            parts.3@,
                            parts.4@,
                            final (self).pos as int,
                        ),
                    ),
                    Err(e) => spec_parse_record_tail(h, d, at) == Err::<
                        (FieldValue, FieldValue, Seq<u8>, FieldValue, FieldValue, int),
                        FormatError,
                    >(e),
                }
            }),
    {
        let unknown_c = match self.read_tag() {
            Ok(f) => f,
            Err(e) => {
                return Err(e);
            },
        };
        let unknown_d = match self.read_tag() {
            Ok(f) => f,
            Err(e) => {
                return Err(e);
            },
        };
        if self.pos > self.data.len() || 16 > self.data.len() - self.pos {
            return Err(FormatError::Truncated);
        }
        let content_hash = copy_range(&self.data, self.pos, self.pos + 16);
        self.pos = self.pos + 16;
        let unknown_e = match self.read_tag() {
            Ok(f) => f,
            Err(e) => {
                return Err(e);
            },
        };
        let unknown_f = match self.read_tag() {
            Ok(f) => f,
            Err(e) => {
                return Err(e);
            },
        };
        Ok((unknown_c, unknown_d, content_hash, unknown_e, unknown_f))
    }

    /// Reads one header record at the cursor, as [`spec_parse_record`]
    /// describes it.
    fn read_record(&mut self) -> (r: Result<ResourceDescriptor, FormatError>)
        ensures
            final (self).data == old(self).data,
            final (self).header == old(self).header,
            ({
                let h = old(self).header@;
                let d = old(self).data@;
                let at = old(self).pos as int;
                match r {
                    Ok(desc) => spec_parse_record(h, d, at) == Ok::<
                        (DescriptorView, int),
                        FormatError,
                    >((desc@, final (self).pos - at)),
                    Err(e) => spec_parse_record(h, d, at) == Err::<
                        (DescriptorView, int),
                        FormatError,
                    >(e),
                }
            }),
    {
        proof {
            reveal(spec_parse_record);
        }
        let (kind_f, size, unknown_a, unknown_b) = match self.read_record_head() {
            Ok(parts) => parts,
            Err(e) => {
                return Err(e);
            },
        };
        let (extent_start, extent_end) = match self.read_record_extents() {
            Ok(parts) => parts,
            Err(e) => {
                return Err(e);
            },
        };
        let (unknown_c, unknown_d, content_hash, unknown_e, unknown_f) =
            match self.read_record_tail() {
            Ok(parts) => parts,
            Err(e) => {
                return Err(e);
            },
        };
        let kind = kind_f.to_string();
        Ok(
            ResourceDescriptor {
                kind,
                declared_uncompressed_size: size,
                unknown_a,
                unknown_b,
                extent_start,
                extent_end,
                unknown_c,
                unknown_d,
                content_hash,
                unknown_e,
                unknown_f,
            },
        )
    }

    /// Walks the whole header-record stream: one descriptor per record, in
    /// on-disk order, or the first structural error met, exactly as
    /// [`spec_parse_header`] describes.
    pub fn read_header(&mut self) -> (r: Result<Vec<ResourceDescriptor>, FormatError>)
        ensures
            final (self).data@ == old(self).data@,
            final (self).header@ == old(self).header@,
            match r {
                Ok(descs) => spec_parse_header(
                    old(self).header@,
                    old(self).data@,
                    old(self).pos as int,
                ) == Ok::<Seq<DescriptorView>, FormatError>(
                    descs@.map_values(|x: ResourceDescriptor| x@),
                ),
                Err(e) => spec_parse_header(old(self).header@, old(self).data@, old(self).pos as int)
                    == Err::<Seq<DescriptorView>, FormatError>(e),
            },
    {
        let ghost h = self.header@;
        let ghost d = self.data@;
        let ghost start: int = self.pos as int;
        let mut out: Vec<ResourceDescriptor> = Vec::new();
        while self.pos < self.header.len()
            invariant
                h == old(self).header@,
                d == old(self).data@,
                start == old(self).pos as int,
                self.header@ == h,
                self.data@ == d,
                start >= 0,
                match spec_parse_header(h, d, self.pos as int) {
                    Ok(rest) => spec_parse_header(h, d, start) == Ok::<
                        Seq<DescriptorView>,
                        FormatError,
                    >(out@.map_values(|x: ResourceDescriptor| x@) + rest),
                    Err(e) => spec_parse_header(h, d, start) == Err::<
                        Seq<DescriptorView>,
                        FormatError,
                    >(e),
                },
            decreases h.len() - self.pos,
        {
            let ghost p_at = self.pos as int;
            let ghost prefix = out@.map_values(|x: ResourceDescriptor| x@);
            let desc = match self.read_record() {
                Ok(desc) => desc,
                Err(e) => {
                    return Err(e);
                },
            };
            proof {
                lemma_record_advance(h, d, p_at);
            }
            out.push(desc);
            proof {
                assert(out@.map_values(|x: ResourceDescriptor| x@) =~= prefix + seq![desc@]);
                if spec_parse_header(h, d, self.pos as int) is Ok {
                    let rest = spec_parse_header(h, d, self.pos as int)->Ok_0;
                    assert(spec_parse_header(h, d, p_at) == Ok::<Seq<DescriptorView>, FormatError>(seq![desc@] + rest));
                    assert(prefix + (seq![desc@] + rest) =~= (prefix + seq![desc@]) + rest);
                }
            }
        }
        proof {
            assert(spec_parse_header(h, d, self.pos as int) == Ok::<Seq<DescriptorView>, FormatError>(Seq::empty()));
            assert(out@.map_values(|x: ResourceDescriptor| x@) + Seq::<DescriptorView>::empty()
                =~= out@.map_values(|x: ResourceDescriptor| x@));
        }
        Ok(out)
    }
}

/// What a compressed extent inflates to, if it is a well-formed stream.
/// Named, not spelled out: the stream format is the compression standard's.
pub uninterp spec fn inflate_of(s: Seq<u8>) -> Option<Seq<u8>>;

/// The 16-byte content digest of a byte sequence.  Named, not spelled out:
/// nothing here recomputes the digest algorithm.
pub uninterp spec fn md5_of(s: Seq<u8>) -> Seq<u8>;

/// Relies on flate2's `ZlibDecoder` reading a whole stream from an
/// in-memory slice: whether a zlib stream inflates, and to what, depends on
/// its bytes alone.
#[verifier::external_body]
fn inflate(data: &Vec<u8>) -> (r: Option<Vec<u8>>)
    ensures
        r is Some <==> inflate_of(data@) is Some,
        r matches Some(v) ==> inflate_of(data@) == Some(v@),
{
    let mut decoder = flate2::read::ZlibDecoder::new(data.as_slice());
    let mut buf: Vec<u8> = Vec::new();
    match std::io::Read::read_to_end(&mut decoder, &mut buf) {
        Ok(_) => Some(buf),
        Err(_) => None,
    }
}

/// Relies on the md-5 crate's `Md5::digest`: a 16-byte digest determined by
/// the input bytes alone.
#[verifier::external_body]
fn md5_digest(data: &Vec<u8>) -> (r: Vec<u8>)
    ensures
        r@ == md5_of(data@),
        r@.len() == 16,
{
    let out: [u8; 16] = <md5::Md5 as md5::Digest>::digest(data.as_slice()).into();
    out.to_vec()
}

/// Bytewise equality of two buffers.
fn bytes_eq(a: &Vec<u8>, b: &Vec<u8>) -> (r: bool)
    ensures
        r == (a@ == b@),
{
    if a.len() != b.len() {
        return false;
    }
    let mut i: usize = 0;
    while i < a.len()
        invariant
            i <= a@.len(),
            a@.len() == b@.len(),
            forall|j: int| 0 <= j < i ==> a@[j] == b@[j],
        decreases a@.len() - i,
    {
        if a[i] != b[i] {
            return false;
        }
        i = i + 1;
    }
    proof {
        assert(a@ =~= b@);
    }
    true
}

/// One resource pulled out of a container: its label, its inflated bytes,
/// and whether those bytes carry the digest the header states for them.  A
/// failed digest check is observable here but deliberately not fatal: the
/// container format's own reader tolerates it, so files in the wild do too.
#[derive(Debug)]
pub struct ExtractedResource {
    pub kind: String,
    pub bytes: Vec<u8>,
    pub hash_ok: bool,
}

/// What extracting one descriptor against buffer `d` must yield: the
/// inflated extent with its digest verdict; the stream ending early when
/// the extent lies outside the buffer; a decompression failure exactly when
/// the extent is no well-formed stream.
pub open spec fn extraction_result(
    d: Seq<u8>,
    dsc: DescriptorView,
    r: Result<ExtractedResource, FormatError>,
) -> bool {
    let within = dsc.extent_start <= dsc.extent_end && dsc.extent_end <= d.len();
    let compressed = d.subrange(dsc.extent_start as int, dsc.extent_end as int);
    match r {
        Ok(res) => {
            &&& within
            &&& inflate_of(compressed) is Some
            &&& res.bytes@ == inflate_of(compressed)->Some_0
            &&& res.kind@ == dsc.kind
            &&& res.hash_ok == (md5_of(res.bytes@) == dsc.content_hash)
        },
        Err(e) => {
            if !within {
                e == FormatError::Truncated
            } else {
                e == FormatError::DecompressionFailed && inflate_of(compressed) is None
            }
        },
    }
}

impl EmkReader {
    /// Extracts every resource the descriptors point at, one outcome per
    /// descriptor, in order.  A resource that cannot be inflated fails on
    /// its own: its siblings are still extracted, and the caller sees which
    /// resources failed and why.
    pub fn extract_resources(&self, descs: &Vec<ResourceDescriptor>) -> (r: Vec<
        Result<ExtractedResource, FormatError>,
    >)
        ensures
            r@.len() == descs@.len(),
            forall|i: int|
                0 <= i < descs@.len() ==> extraction_result(self.data@, descs@[i]@, #[trigger] r@[i]),
    {
        let mut out: Vec<Result<ExtractedResource, FormatError>> = Vec::new();
        let mut i: usize = 0;
        while i < descs.len()
            invariant
                i <= descs@.len(),
                out@.len() == i,
                forall|j: int|
                    0 <= j < i ==> extraction_result(self.data@, descs@[j]@, #[trigger] out@[j]),
            decreases descs@.len() - i,
        {
            let dsc = &descs[i];
            let start = dsc.extent_start as usize;
            let end = dsc.extent_end as usize;
            let item: Result<ExtractedResource, FormatError> = if !(start <= end && end
                <= self.data.len()) {
                Err(FormatError::Truncated)
            } else {
                let compressed = copy_range(&self.data, start, end);
                match inflate(&compressed) {
                    None => Err(FormatError::DecompressionFailed),
                    Some(raw) => {
                        let digest = md5_digest(&raw);
                        let hash_ok = bytes_eq(&digest, &dsc.content_hash);
                        Ok(ExtractedResource { kind: dsc.kind.clone(), bytes: raw, hash_ok })
                    },
                }
            };
            out.push(item);
            i = i + 1;
        }
        out
    }
}

} // verus!

