//! The typed-field codec: the self-describing tagged values the container
//! header is made of.
//!
//! A field is one tag byte followed by its payload: tag 2 a single byte,
//! tag 3 a little-endian 16-bit value, tag 4 a little-endian 32-bit value,
//! tag 6 a length-prefixed UTF-8 string.  The numbering is a format constant:
//! no other tag values exist, and meeting one is a fatal parse error.

use vstd::bytes::{
    spec_u16_from_le_bytes, spec_u16_to_le_bytes, spec_u32_from_le_bytes, spec_u32_to_le_bytes,
    u16_to_le_bytes, u32_to_le_bytes,
};
use vstd::prelude::*;
use vstd::string::StrSliceExecFns;
use vstd::utf8::{
    decode_utf8, encode_utf8, encode_utf8_decode_utf8, encode_utf8_valid_utf8, valid_utf8,
};

use crate::error::FormatError;

verus! {

/// A decoded typed field.
///
/// The numeric coercions mirror the header's habits: a field's logical type
/// is sometimes wider or narrower than its declared tag, so callers narrow
/// (accepting truncation) or parse a decimal string where they must.
#[derive(Debug, Clone, PartialEq)]
pub enum TagOut {
    Byte(u8),
    Short(u16),
    Int(u32),
    String(String),
}

/// The mathematical value of a typed field: as [`TagOut`], with the string
/// kind abstracted to its character sequence.
pub enum FieldValue {
    Byte(u8),
    Short(u16),
    Int(u32),
    Text(Seq<char>),
}

impl View for TagOut {
    type V = FieldValue;

    open spec fn view(&self) -> FieldValue {
        match self {
            TagOut::Byte(b) => FieldValue::Byte(*b),
            TagOut::Short(v) => FieldValue::Short(*v),
            TagOut::Int(v) => FieldValue::Int(*v),
            TagOut::String(s) => FieldValue::Text(s@),
        }
    }
}

/// The field encoded at position `at` of `s`, with the number of bytes it
/// occupies, or nothing if no well-formed field starts there.
pub open spec fn spec_parse_field(s: Seq<u8>, at: int) -> Option<(FieldValue, int)>
    recommends
        0 <= at,
{
    if at + 1 > s.len() {
        None
    } else {
        let tag = s[at];
        if tag == 2u8 {
            if at + 2 <= s.len() {
                Some((FieldValue::Byte(s[at + 1]), 2))
            } else {
                None
            }
        } else if tag == 3u8 {
            if at + 3 <= s.len() {
                Some((FieldValue::Short(spec_u16_from_le_bytes(s.subrange(at + 1, at + 3))), 3))
            } else {
                None
            }
        } else if tag == 4u8 {
            if at + 5 <= s.len() {
                Some((FieldValue::Int(spec_u32_from_le_bytes(s.subrange(at + 1, at + 5))), 5))
            } else {
                None
            }
        } else if tag == 6u8 {
            if at + 2 <= s.len() {
                let n = s[at + 1] as int;
                if at + 2 + n <= s.len() {
                    let bytes = s.subrange(at + 2, at + 2 + n);
                    if valid_utf8(bytes) {
                        Some((FieldValue::Text(decode_utf8(bytes)), 2 + n))
                    } else {
                        None
                    }
                } else {
                    None
                }
            } else {
                None
            }
        } else {
            None
        }
    }
}

/// Which error a failed field parse at position `at` reports: an unknown tag
/// is its own failure, a string with bytes that are not UTF-8 is another,
/// and everything else is the buffer ending too early.
pub open spec fn spec_parse_field_error(s: Seq<u8>, at: int) -> FormatError
    recommends
        spec_parse_field(s, at) is None,
{
    if at + 1 > s.len() {
        FormatError::Truncated
    } else {
        let tag = s[at];
        if tag == 2u8 || tag == 3u8 || tag == 4u8 {
            FormatError::Truncated
        } else if tag == 6u8 {
            if at + 2 <= s.len() && at + 2 + (s[at + 1] as int) <= s.len() {
                FormatError::InvalidText
            } else {
                FormatError::Truncated
            }
        } else {
            FormatError::UnknownTag
        }
    }
}

/// Whether a field can be written back out: only a string whose UTF-8 form
/// exceeds the one-byte length prefix cannot.
pub open spec fn field_encodable(f: FieldValue) -> bool {
    match f {
        FieldValue::Text(t) => encode_utf8(t).len() <= 255,
        _ => true,
    }
}

/// The encoded bytes of a field: its tag, then its payload.
pub open spec fn spec_encode_field(f: FieldValue) -> Seq<u8>
    recommends
        field_encodable(f),
{
    match f {
        FieldValue::Byte(b) => seq![2u8, b],
        FieldValue::Short(v) => seq![3u8] + spec_u16_to_le_bytes(v),
        FieldValue::Int(v) => seq![4u8] + spec_u32_to_le_bytes(v),
        FieldValue::Text(t) => seq![6u8, encode_utf8(t).len() as u8] + encode_utf8(t),
    }
}

/// Encoding a field and then decoding it gives the field back, whichever of
/// the four kinds it is, and consumes exactly the encoded bytes.
pub proof fn lemma_field_round_trip(f: FieldValue)
    requires
        field_encodable(f),
    ensures
        spec_parse_field(spec_encode_field(f), 0) == Some(
            (f, spec_encode_field(f).len() as int),
        ),
{
    let s = spec_encode_field(f);
    match f {
        FieldValue::Byte(b) => {
            assert(s.len() == 2 && s[0] == 2u8 && s[1] == b);
        },
        FieldValue::Short(v) => {
            vstd::bytes::lemma_auto_spec_u16_to_from_le_bytes();
            assert(s.subrange(1, 3) =~= spec_u16_to_le_bytes(v));
        },
        FieldValue::Int(v) => {
            vstd::bytes::lemma_auto_spec_u32_to_from_le_bytes();
            assert(s.subrange(1, 5) =~= spec_u32_to_le_bytes(v));
        },
        FieldValue::Text(t) => {
            let enc = encode_utf8(t);
            encode_utf8_valid_utf8(t);
            encode_utf8_decode_utf8(t);
            assert(s[1] == enc.len() as u8);
            assert((enc.len() as u8) as int == enc.len() as int);
            assert(s.subrange(2, 2 + enc.len() as int) =~= enc);
        },
    }
}

/// Relies on `String::from_utf8`: it succeeds exactly on well-formed UTF-8
/// and returns the characters those bytes encode.
#[verifier::external_body]
pub(crate) fn bytes_to_string(bytes: Vec<u8>) -> (r: Option<String>)
    ensures
        r is Some <==> valid_utf8(bytes@),
        r matches Some(s) ==> s@ == decode_utf8(bytes@),
{
    String::from_utf8(bytes).ok()
}

/// Every byte sequence of ASCII bytes is valid UTF-8 and decodes to the
/// characters with the same code points.
pub proof fn lemma_ascii_decode(bytes: Seq<u8>)
    requires
        forall|i: int| 0 <= i < bytes.len() ==> bytes[i] < 0x80,
    ensures
        valid_utf8(bytes),
        decode_utf8(bytes) == bytes.map_values(|b: u8| b as char),
    decreases bytes.len(),
{
    if bytes.len() == 0 {
        assert(decode_utf8(bytes) =~= bytes.map_values(|b: u8| b as char));
    } else {
        let b = bytes[0];
        assert(b < 0x80 ==> (b & 0x7f) == b) by (bit_vector);
        assert(vstd::utf8::is_leading_byte_width_1(b));
        assert(vstd::utf8::decode_first_codepoint(bytes) == b as u32);
        assert(vstd::utf8::length_of_first_codepoint(bytes) == 1);
        let rest = bytes.drop_first();
        assert(vstd::utf8::pop_first_scalar(bytes) =~= rest);
        lemma_ascii_decode(rest);
        assert(decode_utf8(bytes) =~= bytes.map_values(|b: u8| b as char));
    }
}

/// Whether a character is a decimal digit.
pub open spec fn is_dec_digit(c: char) -> bool {
    48 <= c as u32 <= 57
}

/// The numeric value of a digit character.
pub open spec fn dec_digit_val(c: char) -> int {
    c as u32 - 48
}

/// Whether every character of a sequence is a decimal digit.
pub open spec fn all_dec_digits(s: Seq<char>) -> bool {
    forall|i: int| 0 <= i < s.len() ==> is_dec_digit(s[i])
}

/// The number a digit sequence denotes in base ten.
pub open spec fn dec_value(s: Seq<char>) -> int
    decreases s.len(),
{
    if s.len() == 0 {
        0int
    } else {
        dec_value(s.drop_last()) * 10 + dec_digit_val(s.last())
    }
}

/// The digit part of an unsigned decimal literal: everything after an
/// optional leading plus sign.
pub open spec fn uint_digits(s: Seq<char>) -> Seq<char> {
    if s.len() >= 1 && s[0] == '+' {
        s.drop_first()
    } else {
        s
    }
}

/// Whether a string is an unsigned decimal integer as the standard parser
/// accepts it: an optional plus sign, then one or more digits.
pub open spec fn parses_as_uint(s: Seq<char>) -> bool {
    uint_digits(s).len() >= 1 && all_dec_digits(uint_digits(s))
}

/// The value an unsigned decimal literal denotes.
pub open spec fn uint_value(s: Seq<char>) -> int {
    dec_value(uint_digits(s))
}

/// A digit sequence denotes a non-negative number.
proof fn lemma_dec_value_nonneg(s: Seq<char>)
    requires
        all_dec_digits(s),
    ensures
        dec_value(s) >= 0,
    decreases s.len(),
{
    if s.len() > 0 {
        assert(all_dec_digits(s.drop_last()));
        lemma_dec_value_nonneg(s.drop_last());
    }
}

/// A prefix of a digit sequence denotes at most what the whole denotes.
proof fn lemma_dec_value_prefix_le(s: Seq<char>, k: int)
    requires
        all_dec_digits(s),
        0 <= k <= s.len(),
    ensures
        dec_value(s.subrange(0, k)) <= dec_value(s),
    decreases s.len() - k,
{
    if k == s.len() {
        assert(s.subrange(0, k) =~= s);
    } else {
        let t = s.subrange(0, k + 1);
        assert(t.drop_last() =~= s.subrange(0, k));
        assert(all_dec_digits(t.drop_last()));
        lemma_dec_value_nonneg(s.subrange(0, k));
        assert(dec_value(t) == dec_value(s.subrange(0, k)) * 10 + dec_digit_val(t.last()));
        lemma_dec_value_prefix_le(s, k + 1);
    }
}

/// Parses an unsigned decimal integer as the standard parser does: a result
/// exactly when the text is an optional plus sign followed by digits and the
/// value fits.
pub fn parse_u32_dec(s: &String) -> (r: Option<u32>)
    ensures
        match r {
            Some(v) => parses_as_uint(s@) && v == uint_value(s@),
            None => !(parses_as_uint(s@) && uint_value(s@) <= u32::MAX),
        },
{
    let n = s.as_str().unicode_len();
    let start: usize = if n >= 1 && s.as_str().get_char(0) == '+' {
        1
    } else {
        0
    };
    let ghost d: Seq<char> = uint_digits(s@);
    proof {
        assert(d =~= s@.subrange(start as int, n as int));
    }
    if n == start {
        // No digits at all.
        return None;
    }
    let mut acc: u64 = 0;
    let mut i: usize = start;
    while i < n
        invariant
            start <= i <= n,
            n == s@.len(),
            start <= 1,
            d == uint_digits(s@),
            d =~= s@.subrange(start as int, n as int),
            all_dec_digits(d.subrange(0, i - start)),
            acc == dec_value(d.subrange(0, i - start)),
            acc <= u32::MAX,
        decreases n - i,
    {
        let c = s.as_str().get_char(i);
        let cv = c as u32;
        if cv < 48 || cv > 57 {
            proof {
                assert(!is_dec_digit(d[i - start]));
            }
            return None;
        }
        let dv: u64 = (cv - 48) as u64;
        let next: u64 = acc * 10 + dv;
        proof {
            let k = i - start;
            assert(d.subrange(0, k + 1).drop_last() =~= d.subrange(0, k));
            assert(d.subrange(0, k + 1).last() == d[k]);
            assert(all_dec_digits(d.subrange(0, k + 1)));
            assert(next == dec_value(d.subrange(0, k + 1)));
        }
        if next > 0xffff_ffff {
            proof {
                if parses_as_uint(s@) {
                    lemma_dec_value_prefix_le(d, i + 1 - start);
                }
            }
            return None;
        }
        acc = next;
        i = i + 1;
    }
    proof {
        assert(d.subrange(0, n - start) =~= d);
    }
    Some(acc as u32)
}

/// The decimal digits of a non-negative number, most significant first,
/// without the leading-zero special case.
pub open spec fn dec_digit_bytes(v: int) -> Seq<u8>
    decreases v,
{
    if v <= 0 {
        Seq::empty()
    } else {
        dec_digit_bytes(v / 10) + seq![(v % 10 + 48) as u8]
    }
}

/// The decimal representation of a non-negative number as ASCII bytes.
pub open spec fn dec_bytes(v: int) -> Seq<u8> {
    if v == 0 {
        seq![48u8]
    } else {
        dec_digit_bytes(v)
    }
}

/// The decimal representation of a non-negative number as characters.
pub open spec fn dec_chars(v: int) -> Seq<char> {
    dec_bytes(v).map_values(|b: u8| b as char)
}

/// The textual label a field stands for: numbers in decimal, a string as
/// itself.
pub open spec fn field_label(f: FieldValue) -> Seq<char> {
    match f {
        FieldValue::Byte(b) => dec_chars(b as int),
        FieldValue::Short(v) => dec_chars(v as int),
        FieldValue::Int(v) => dec_chars(v as int),
        FieldValue::Text(t) => t,
    }
}

/// Renders a number in decimal.
fn u32_to_dec_string(v: u32) -> (r: String)
    ensures
        r@ == dec_chars(v as int),
{
    let mut rev_digits: Vec<u8> = Vec::new();
    let mut x = v;
    loop
        invariant_except_break
            dec_digit_bytes(v as int) =~= dec_digit_bytes(x as int) + rev_digits@.reverse(),
            x == 0 ==> rev_digits@.len() == 0,
            forall|j: int| 0 <= j < rev_digits@.len() ==> 48 <= #[trigger] rev_digits@[j] < 58,
        ensures
            dec_bytes(v as int) =~= rev_digits@.reverse(),
            forall|j: int| 0 <= j < rev_digits@.len() ==> 48 <= #[trigger] rev_digits@[j] < 58,
        decreases x,
    {
        let ghost before = rev_digits@;
        let d: u8 = (x % 10) as u8 + 48;
        rev_digits.push(d);
        proof {
            assert(before.push(d).reverse() =~= seq![d] + before.reverse());
            if x > 0 {
                assert(dec_digit_bytes(x as int) == dec_digit_bytes(x as int / 10) + seq![
                    (x as int % 10 + 48) as u8,
                ]);
            }
        }
        let next = x / 10;
        if next == 0 {
            proof {
                if x > 0 {
                    assert(dec_digit_bytes(x as int) =~= seq![d]);
                    assert(dec_bytes(v as int) =~= rev_digits@.reverse());
                } else {
                    assert(v == 0 && before.len() == 0);
                    assert(rev_digits@.reverse() =~= seq![48u8]);
                }
            }
            break ;
        }
        proof {
            assert(dec_digit_bytes(x as int).drop_last() =~= dec_digit_bytes(x as int / 10));
        }
        x = next;
    }
    let mut bytes: Vec<u8> = Vec::new();
    let len = rev_digits.len();
    let mut i: usize = len;
    while i > 0
        invariant
            i <= len,
            len == rev_digits@.len(),
            bytes@.len() == len - i,
            forall|k: int| 0 <= k < bytes@.len() ==> bytes@[k] == rev_digits@[len - 1 - k],
        decreases i,
    {
        i = i - 1;
        bytes.push(rev_digits[i]);
    }
    proof {
        assert(bytes@ =~= rev_digits@.reverse());
        assert(forall|k: int| 0 <= k < bytes@.len() ==> bytes@[k] < 0x80);
        lemma_ascii_decode(bytes@);
    }
    let r = bytes_to_string(bytes);
    r.unwrap()
}

impl TagOut {
    /// Renders the field's value as text: numbers in decimal, a string as
    /// itself.
    pub fn to_string(&self) -> (r: String)
        ensures
            r@ == field_label(self@),
    {
        match self {
            TagOut::Byte(b) => u32_to_dec_string(*b as u32),
            TagOut::Short(v) => u32_to_dec_string(*v as u32),
            TagOut::Int(v) => u32_to_dec_string(*v),
            TagOut::String(s) => s.clone(),
        }
    }

    /// Narrows the field to a byte: wider integers are truncated by design,
    /// and a string must be the decimal spelling of a value that fits.
    pub fn to_u8(&self) -> (r: u8)
        requires
            self@ matches FieldValue::Text(t) ==> parses_as_uint(t) && uint_value(t) <= u8::MAX,
        ensures
            r == match self@ {
                FieldValue::Byte(b) => b,
                FieldValue::Short(v) => v as u8,
                FieldValue::Int(v) => v as u8,
                FieldValue::Text(t) => uint_value(t) as u8,
            },
    {
        match self {
            TagOut::Byte(b) => *b,
            TagOut::Short(v) => *v as u8,
            TagOut::Int(v) => *v as u8,
            TagOut::String(s) => {
                let v = parse_u32_dec(s).unwrap();
                v as u8
            },
        }
    }

    /// Narrows the field to 16 bits; same coercion rules as [`Self::to_u8`].
    pub fn to_u16(&self) -> (r: u16)
        requires
            self@ matches FieldValue::Text(t) ==> parses_as_uint(t) && uint_value(t) <= u16::MAX,
        ensures
            r == match self@ {
                FieldValue::Byte(b) => b as u16,
                FieldValue::Short(v) => v,
                FieldValue::Int(v) => v as u16,
                FieldValue::Text(t) => uint_value(t) as u16,
            },
    {
        match self {
            TagOut::Byte(b) => *b as u16,
            TagOut::Short(v) => *v,
            TagOut::Int(v) => *v as u16,
            TagOut::String(s) => {
                let v = parse_u32_dec(s).unwrap();
                v as u16
            },
        }
    }

    /// Widens or keeps the field at 32 bits; a string must spell a value
    /// that fits.
    pub fn to_u32(&self) -> (r: u32)
        requires
            self@ matches FieldValue::Text(t) ==> parses_as_uint(t) && uint_value(t) <= u32::MAX,
        ensures
            r == match self@ {
                FieldValue::Byte(b) => b as u32,
                FieldValue::Short(v) => v as u32,
                FieldValue::Int(v) => v,
                FieldValue::Text(t) => uint_value(t) as u32,
            },
    {
        match self {
            TagOut::Byte(b) => *b as u32,
            TagOut::Short(v) => *v as u32,
            TagOut::Int(v) => *v,
            TagOut::String(s) => parse_u32_dec(s).unwrap(),
        }
    }
}

/// Writes a field back out as its tagged byte form; a string too long for
/// the one-byte length prefix is the one value that cannot be written.
pub fn encode_field(f: &TagOut) -> (r: Option<Vec<u8>>)
    ensures
        r is Some <==> field_encodable(f@),
        r matches Some(v) ==> v@ == spec_encode_field(f@),
{
    match f {
        TagOut::Byte(b) => {
            let mut out: Vec<u8> = Vec::new();
            out.push(2u8);
            out.push(*b);
            proof {
                assert(out@ =~= spec_encode_field(f@));
            }
            Some(out)
        },
        TagOut::Short(v) => {
            let mut out: Vec<u8> = Vec::new();
            out.push(3u8);
            let mut le = u16_to_le_bytes(*v);
            out.append(&mut le);
            proof {
                assert(out@ =~= spec_encode_field(f@));
            }
            Some(out)
        },
        TagOut::Int(v) => {
            let mut out: Vec<u8> = Vec::new();
            out.push(4u8);
            let mut le = u32_to_le_bytes(*v);
            out.append(&mut le);
            proof {
                assert(out@ =~= spec_encode_field(f@));
            }
            Some(out)
        },
        TagOut::String(s) => {
            let mut bytes = s.as_str().as_bytes_vec();
            if bytes.len() > 255 {
                None
            } else {
                let mut out: Vec<u8> = Vec::new();
                out.push(6u8);
                out.push(bytes.len() as u8);
                out.append(&mut bytes);
                proof {
                    assert(out@ =~= spec_encode_field(f@));
                }
                Some(out)
            }
        },
    }
}

} // verus!
