//! The NCN format: a song split over a plain-text lyrics file and a binary
//! timing-cursor file.
//!
//! The lyrics file is legacy single-byte text (the Thai code page) whose
//! first three lines are title, artist and musical key, followed by one blank
//! separator line and then the lyrics body.  The cursor file is the stride
//! layout decoded in [`crate::tick`].

use vstd::prelude::*;

use crate::error::FormatError;
use crate::scrolling::{
    has_tick_at_or_before, is_first_match, is_first_position_of, is_latest_at_or_before,
};
use crate::tick::{stride_count, stride_tick16, stride_ticks};

verus! {

/// The character the WINDOWS-874 code page assigns to a byte, with the
/// replacement character standing in for unmapped bytes.  Named rather than
/// spelled out: the table is the code page itself.
pub uninterp spec fn win874_char(b: u8) -> char;

/// A whole byte sequence decoded through [`win874_char`], one character per
/// byte.
pub open spec fn win874_decode(s: Seq<u8>) -> Seq<char> {
    Seq::new(s.len(), |i: int| win874_char(s[i]))
}

/// Relies on the encoding crate's WINDOWS-874 decoder, `Encoding::decode`
/// with `DecoderTrap::Replace`: every byte yields exactly one character
/// determined by that byte alone — bytes up to 0x7f map to the same ASCII
/// character, the rest go through the code page table or become the
/// replacement character — and with the replacing trap the decode never
/// fails.
#[verifier::external_body]
fn decode_win874(data: &Vec<u8>) -> (r: String)
    ensures
        r@.len() == data@.len(),
        forall|i: int| 0 <= i < data@.len() ==> r@[i] == win874_char(data@[i]),
        r@ == win874_decode(data@),
        forall|i: int| 0 <= i < data@.len() && data@[i] < 0x80 ==> r@[i] == (data@[i] as char),
{
    match encoding::Encoding::decode(
        encoding::all::WINDOWS_874,
        data.as_slice(),
        encoding::DecoderTrap::Replace,
    ) {
        Ok(s) => s,
        Err(_) => String::new(),
    }
}

/// The position of the first newline byte at or after `from`, or the length
/// of the buffer when there is none.
pub open spec fn find_newline(s: Seq<u8>, from: int) -> int
    recommends
        0 <= from <= s.len(),
    decreases s.len() - from when 0 <= from <= s.len()
{
    if from >= s.len() {
        s.len() as int
    } else if s[from] == 10u8 {
        from
    } else {
        find_newline(s, from + 1)
    }
}

/// `find_newline` stays between its starting point and the end of the
/// buffer.
pub proof fn lemma_find_newline_bounds(s: Seq<u8>, from: int)
    requires
        0 <= from <= s.len(),
    ensures
        from <= find_newline(s, from) <= s.len(),
    decreases s.len() - from,
{
    if from < s.len() && s[from] != 10u8 {
        lemma_find_newline_bounds(s, from + 1);
    }
}

/// The first newline is exactly where a linear scan says it is.
pub proof fn lemma_find_newline_at(s: Seq<u8>, from: int, e: int)
    requires
        0 <= from <= e <= s.len(),
        forall|j: int| from <= j < e ==> s[j] != 10u8,
        e == s.len() || s[e] == 10u8,
    ensures
        find_newline(s, from) == e,
    decreases e - from,
{
    if from < e {
        lemma_find_newline_at(s, from + 1, e);
    }
}

/// A line with a trailing carriage return stripped, as the line terminator
/// `\r\n` requires.
pub open spec fn strip_cr(line: Seq<u8>) -> Seq<u8> {
    if line.len() > 0 && line[line.len() - 1] == 13u8 {
        line.drop_last()
    } else {
        line
    }
}

#[via_fn]
proof fn split_lines_from_decreases(s: Seq<u8>, from: int) {
    lemma_find_newline_bounds(s, from);
}

/// The newline-separated segments of `s` starting at `from`: every segment
/// ended by a newline loses a trailing carriage return; the final,
/// unterminated segment is kept as it is.
pub open spec fn split_lines_from(s: Seq<u8>, from: int) -> Seq<Seq<u8>>
    recommends
        0 <= from <= s.len(),
    decreases s.len() - from when 0 <= from <= s.len() via split_lines_from_decreases
{
    let e = find_newline(s, from);
    if e >= s.len() {
        seq![s.subrange(from, s.len() as int)]
    } else {
        seq![strip_cr(s.subrange(from, e))] + split_lines_from(s, e + 1)
    }
}

/// The lines of a text buffer: newline-separated segments, with the segment
/// after a final newline (always empty) not counted as a line of its own.
pub open spec fn text_lines(s: Seq<u8>) -> Seq<Seq<u8>> {
    let raw = split_lines_from(s, 0);
    if raw.last().len() == 0 {
        raw.drop_last()
    } else {
        raw
    }
}

/// Lines joined back together with single newline bytes.
pub open spec fn join_lines(ls: Seq<Seq<u8>>) -> Seq<u8>
    decreases ls.len(),
{
    if ls.len() == 0 {
        Seq::empty()
    } else if ls.len() == 1 {
        ls[0]
    } else {
        ls[0] + seq![10u8] + join_lines(ls.drop_first())
    }
}

/// Copies `data[from..to]` into a fresh buffer.
fn copy_range(data: &Vec<u8>, from: usize, to: usize) -> (r: Vec<u8>)
    requires
        from <= to <= data@.len(),
    ensures
        r@ == data@.subrange(from as int, to as int),
{
    let mut out: Vec<u8> = Vec::new();
    let mut i = from;
    while i < to
        invariant
            from <= i <= to <= data@.len(),
            out@.len() == i - from,
            forall|j: int| 0 <= j < out@.len() ==> out@[j] == data@[from + j],
        decreases to - i,
    {
        out.push(data[i]);
        i = i + 1;
    }
    proof {
        assert(out@ =~= data@.subrange(from as int, to as int));
    }
    out
}

/// Splits a buffer into its lines, as [`split_lines_from`] describes them
/// from the start of the buffer.
fn split_into_lines(data: &Vec<u8>) -> (r: Vec<Vec<u8>>)
    ensures
        r@.map_values(|l: Vec<u8>| l@) == split_lines_from(data@, 0),
{
    let ghost whole: Seq<Seq<u8>> = split_lines_from(data@, 0);
    let mut lines: Vec<Vec<u8>> = Vec::new();
    let mut from: usize = 0;
    loop
        invariant_except_break
            whole =~= lines@.map_values(|l: Vec<u8>| l@) + split_lines_from(data@, from as int),
        invariant
            from <= data@.len(),
            whole == split_lines_from(data@, 0),
        ensures
            lines@.map_values(|l: Vec<u8>| l@) =~= whole,
        decreases data@.len() - from,
    {
        let mut e: usize = from;
        while e < data.len() && data[e] != 10u8
            invariant
                from <= e <= data@.len(),
                forall|j: int| from <= j < e ==> data@[j] != 10u8,
            decreases data@.len() - e,
        {
            e = e + 1;
        }
        proof {
            lemma_find_newline_at(data@, from as int, e as int);
        }
        let mut line = copy_range(data, from, e);
        if e < data.len() {
            if line.len() > 0 && line[line.len() - 1] == 13u8 {
                line.pop();
            }
            proof {
                assert(line@ =~= strip_cr(data@.subrange(from as int, e as int)));
                assert(split_lines_from(data@, from as int) == seq![
                    strip_cr(data@.subrange(from as int, e as int)),
                ] + split_lines_from(data@, e + 1));
            }
            let ghost lines_before = lines@.map_values(|l: Vec<u8>| l@);
            lines.push(line);
            proof {
                assert(lines@.map_values(|l: Vec<u8>| l@) =~= lines_before + seq![
                    strip_cr(data@.subrange(from as int, e as int)),
                ]);
            }
            from = e + 1;
        } else {
            proof {
                assert(split_lines_from(data@, from as int) == seq![
                    data@.subrange(from as int, data@.len() as int),
                ]);
            }
            let ghost lines_before = lines@.map_values(|l: Vec<u8>| l@);
            lines.push(line);
            proof {
                assert(lines@.map_values(|l: Vec<u8>| l@) =~= lines_before + seq![
                    data@.subrange(from as int, data@.len() as int),
                ]);
            }
            break ;
        }
    }
    lines
}

/// The lyrics resource: three metadata lines, a blank separator, then the
/// body.
#[derive(Debug)]
pub struct NcnLyrics {
    /// Song title: the first line.
    pub title: String,
    /// Artist: the second line.
    pub author: String,
    /// Musical key of the song: the third line.
    pub key: String,
    /// The lyrics body: every line after the blank separator, joined with
    /// newlines.
    pub lyrics: String,
}

impl NcnLyrics {
    /// Packs already decoded lyrics fields.
    pub fn new(title: String, author: String, key: String, lyrics: String) -> (r: NcnLyrics)
        ensures
            r.title@ == title@,
            r.author@ == author@,
            r.key@ == key@,
            r.lyrics@ == lyrics@,
    {
        NcnLyrics { title, author, key, lyrics }
    }

    /// Decodes a lyrics file: code-page text whose first three lines are the
    /// metadata, with the body starting after the blank fourth line.  Fewer
    /// than four lines is the one malformation this resource can have.
    pub fn from_bytes(data: &Vec<u8>) -> (r: Result<NcnLyrics, FormatError>)
        ensures
            ({
                let ls = text_lines(data@);
                match r {
                    Ok(l) => {
                        &&& ls.len() >= 4
                        &&& l.title@ == win874_decode(ls[0])
                        &&& l.author@ == win874_decode(ls[1])
                        &&& l.key@ == win874_decode(ls[2])
                        &&& l.lyrics@ == win874_decode(join_lines(ls.skip(4)))
                    },
                    Err(e) => {
                        &&& e == FormatError::MissingMetadataLines
                        &&& ls.len() < 4
                    },
                }
            }),
    {
        let ghost ls: Seq<Seq<u8>> = text_lines(data@);
        let mut lines = split_into_lines(data);
        // The segment a final newline opens is empty and is not a line.
        if lines.len() > 0 {
            let last = &lines[lines.len() - 1];
            if last.len() == 0 {
                lines.pop();
            }
        }
        proof {
            assert(split_lines_from(data@, 0).len() > 0);
            assert(lines@.map_values(|l: Vec<u8>| l@) =~= ls);
        }
        if lines.len() < 4 {
            return Err(FormatError::MissingMetadataLines);
        }
        let title = decode_win874(&lines[0]);
        let author = decode_win874(&lines[1]);
        let key = decode_win874(&lines[2]);

        let mut joined: Vec<u8> = Vec::new();
        let mut idx: usize = 4;
        while idx < lines.len()
            invariant
                4 <= idx <= lines@.len(),
                ls == lines@.map_values(|l: Vec<u8>| l@),
                join_lines(ls.skip(4)) =~= joined@ + join_lines(ls.skip(idx as int)) || (idx
                    == ls.len() && join_lines(ls.skip(4)) =~= joined@),
            decreases lines@.len() - idx,
        {
            let ghost rest: Seq<Seq<u8>> = ls.skip(idx as int);
            proof {
                assert(rest.len() == ls.len() - idx >= 1);
                assert(rest[0] == ls[idx as int]);
                assert(rest.drop_first() =~= ls.skip(idx as int + 1));
            }
            let line = &lines[idx];
            let mut j: usize = 0;
            let ghost joined_before = joined@;
            while j < line.len()
                invariant
                    j <= line@.len(),
                    joined@ == joined_before + line@.subrange(0, j as int),
                decreases line@.len() - j,
            {
                joined.push(line[j]);
                j = j + 1;
                proof {
                    assert(joined@ =~= joined_before + line@.subrange(0, j as int));
                }
            }
            proof {
                assert(line@.subrange(0, line@.len() as int) =~= line@);
            }
            if idx + 1 < lines.len() {
                joined.push(10u8);
                proof {
                    assert(rest.len() >= 2);
                    assert(join_lines(rest) == rest[0] + seq![10u8] + join_lines(
                        rest.drop_first(),
                    ));
                    assert(joined@ =~= joined_before + rest[0] + seq![10u8]);
                }
            } else {
                proof {
                    assert(rest.len() == 1);
                    assert(join_lines(rest) == rest[0]);
                    assert(joined@ =~= joined_before + rest[0]);
                }
            }
            idx = idx + 1;
        }
        let lyrics = decode_win874(&joined);
        proof {
            if ls.len() == 4 {
                assert(ls.skip(4).len() == 0);
                assert(join_lines(ls.skip(4)) =~= joined@);
            }
        }
        Ok(NcnLyrics { title, author, key, lyrics })
    }
}

/// One scroll checkpoint of the cursor file: the MIDI time at which the next
/// character scrolls.
#[derive(Debug, Clone, Copy, Ord, PartialEq, PartialOrd, Eq)]
pub struct CurTick {
    pub tick: u32,
}

impl CurTick {
    pub fn new(tick: u32) -> (r: CurTick)
        ensures
            r.tick == tick,
    {
        CurTick { tick }
    }
}

/// The decoded cursor file: scroll checkpoints in on-disk order plus the
/// index of the checkpoint playback last scrolled to.  The stored sequence
/// is not assumed sorted; lookups search it as it is.
#[derive(Debug, Clone, Ord, PartialEq, PartialOrd, Eq)]
pub struct NcnCursor {
    pub data: Vec<CurTick>,
    pub pos: usize,
}

impl NcnCursor {
    /// The tick values in storage order.
    pub open spec fn ticks(&self) -> Seq<u32> {
        self.data@.map_values(|t: CurTick| t.tick)
    }

    /// Builds a cursor from plain tick times, starting at position 0.
    pub fn new(data: Vec<u32>) -> (r: NcnCursor)
        ensures
            r.ticks() == data@,
            r.pos == 0,
    {
        let mut out: Vec<CurTick> = Vec::new();
        let mut i: usize = 0;
        while i < data.len()
            invariant
                i <= data@.len(),
                out@.len() == i,
                forall|j: int| 0 <= j < i ==> out@[j].tick == data@[j],
            decreases data@.len() - i,
        {
            out.push(CurTick { tick: data[i] });
            i = i + 1;
        }
        let r = NcnCursor { data: out, pos: 0 };
        proof {
            assert(r.ticks() =~= data@);
        }
        r
    }

    /// Wraps an already decoded checkpoint sequence, starting at position 0.
    pub fn from_ticks(data: Vec<CurTick>) -> (r: NcnCursor)
        ensures
            r.data@ == data@,
            r.pos == 0,
    {
        NcnCursor { data, pos: 0 }
    }

    /// Decodes a cursor file: one checkpoint per 4-byte stride, as
    /// [`stride_ticks`] describes.
    pub fn from_bytes(data: &Vec<u8>) -> (r: NcnCursor)
        ensures
            r.ticks() == stride_ticks(data@),
            r.pos == 0,
    {
        let len = data.len();
        let count = len / 4 + if len % 4 == 0 {
            0
        } else {
            1
        };
        let mut out: Vec<CurTick> = Vec::new();
        let mut k: usize = 0;
        while k < count
            invariant
                data@.len() <= usize::MAX,
                count == stride_count(data@.len() as int),
                k <= count,
                out@.len() == k,
                forall|j: int| 0 <= j < k ==> out@[j].tick == stride_tick16(data@, j) as u32,
            decreases count - k,
        {
            proof {
                assert(4 * stride_count(data@.len() as int) <= data@.len() as int + 3);
                assert(4 * (k as int) <= data@.len() as int - 1);
            }
            let i = k * 4;
            let time: u16 = if i + 1 < data.len() {
                data[i] as u16 + 256 * (data[i + 1] as u16)
            } else {
                data[i] as u16
            };
            out.push(CurTick { tick: time as u32 });
            k = k + 1;
        }
        let r = NcnCursor { data: out, pos: 0 };
        proof {
            assert(r.ticks() =~= stride_ticks(data@));
        }
        r
    }

    /// How many scroll checkpoints the cursor holds.
    pub fn len(&self) -> (r: usize)
        ensures
            r == self.data@.len(),
    {
        self.data.len()
    }

    /// The current scroll position.
    pub fn pos(&self) -> (r: usize)
        ensures
            r == self.pos,
    {
        self.pos
    }

    /// The checkpoint at a given index, if it exists.
    pub fn get(&self, index: usize) -> (r: Option<CurTick>)
        ensures
            r == (if index < self.data@.len() {
                Some(self.data@[index as int])
            } else {
                None::<CurTick>
            }),
    {
        if index < self.data.len() {
            Some(self.data[index])
        } else {
            None
        }
    }

    /// The first position whose checkpoint is exactly at `time`, if any.
    pub fn scroll_check(&self, time: u32) -> (r: Option<usize>)
        ensures
            match r {
                Some(j) => is_first_match(self.ticks(), time, j as int),
                None => !exists|i: int| 0 <= i < self.ticks().len() && self.ticks()[i] == time,
            },
    {
        let mut i: usize = 0;
        while i < self.data.len()
            invariant
                i <= self.data@.len(),
                forall|j: int| 0 <= j < i ==> self.ticks()[j] != time,
            decreases self.data@.len() - i,
        {
            if self.data[i].tick == time {
                return Some(i);
            }
            i = i + 1;
        }
        None
    }

    /// Seeks directly to an index, bounds-checked; out of range leaves the
    /// cursor unchanged.
    pub fn scroll_to(&mut self, index: usize) -> (r: Option<CurTick>)
        ensures
            final (self).data == old(self).data,
            match r {
                Some(t) => index < old(self).data@.len() && t == old(self).data@[index as int]
                    && final (self).pos == index,
                None => index >= old(self).data@.len() && final (self).pos == old(self).pos,
            },
    {
        if index < self.data.len() {
            self.pos = index;
            Some(self.data[index])
        } else {
            None
        }
    }

    /// Scrolls to the latest checkpoint at or before `time`: returns it and
    /// moves the position to its first occurrence in storage order, or
    /// returns nothing (and stays put) when every checkpoint is later.
    pub fn scroll(&mut self, time: u32) -> (r: Option<CurTick>)
        ensures
            final (self).data == old(self).data,
            match r {
                Some(t) => {
                    &&& is_latest_at_or_before(old(self).ticks(), time, t.tick)
                    &&& is_first_position_of(old(self).ticks(), t.tick, final (self).pos as int)
                },
                None => {
                    &&& !has_tick_at_or_before(old(self).ticks(), time)
                    &&& final (self).pos == old(self).pos
                },
            },
    {
        let mut best: Option<(u32, usize)> = None;
        let mut i: usize = 0;
        while i < self.data.len()
            invariant
                i <= self.data@.len(),
                match best {
                    Some((v, j)) => {
                        &&& j < i
                        &&& self.ticks()[j as int] == v
                        &&& v <= time
                        &&& forall|k: int|
                            0 <= k < i && self.ticks()[k] <= time ==> self.ticks()[k] <= v
                        &&& forall|k: int| 0 <= k < j ==> self.ticks()[k] != v
                    },
                    None => forall|k: int| 0 <= k < i ==> self.ticks()[k] > time,
                },
            decreases self.data@.len() - i,
        {
            let t = self.data[i].tick;
            if t <= time {
                match best {
                    Some((v, _)) => {
                        if t > v {
                            best = Some((t, i));
                        }
                    },
                    None => {
                        best = Some((t, i));
                    },
                }
            }
            i = i + 1;
        }
        match best {
            Some((v, j)) => {
                self.pos = j;
                Some(CurTick { tick: v })
            },
            None => None,
        }
    }

    /// The checkpoint the cursor currently stands on, if the position is in
    /// range.
    pub fn last_scroll(&self) -> (r: Option<CurTick>)
        ensures
            r == (if self.pos < self.data@.len() {
                Some(self.data@[self.pos as int])
            } else {
                None::<CurTick>
            }),
    {
        if self.pos < self.data.len() {
            Some(self.data[self.pos])
        } else {
            None
        }
    }

    /// The checkpoint one past the current position, if any.
    pub fn next(&self) -> (r: Option<CurTick>)
        ensures
            r == (if self.pos + 1 < self.data@.len() {
                Some(self.data@[self.pos as int + 1])
            } else {
                None::<CurTick>
            }),
    {
        if self.pos < self.data.len() && self.pos + 1 < self.data.len() {
            Some(self.data[self.pos + 1])
        } else {
            None
        }
    }

    /// The checkpoint one before the current position; at position 0 there
    /// is none.
    pub fn prev(&self) -> (r: Option<CurTick>)
        ensures
            r == (if 1 <= self.pos && self.pos - 1 < self.data@.len() {
                Some(self.data@[self.pos as int - 1])
            } else {
                None::<CurTick>
            }),
    {
        if self.pos >= 1 && self.pos - 1 < self.data.len() {
            Some(self.data[self.pos - 1])
        } else {
            None
        }
    }
}

} // verus!
