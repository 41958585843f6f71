//! The format-independent karaoke model: whatever container a song came
//! from, it is converted into these types for playback.

use vstd::prelude::*;

use crate::scrolling::{
    has_tick_at_or_before, is_first_match, is_first_position_of, is_latest_at_or_before,
};

verus! {

/// A whole song, assembled from any of the supported container formats.
pub struct Karaoke {
    pub header: KaraokeHeader,
    pub info: KaraokeInfo,
    pub lyrics: String,
    pub cursor: KaraokeCursor,
    pub midi: Vec<u8>,
}

/// The container-level signature and version of the file a song came from.
pub struct KaraokeHeader {
    pub signature: String,
    pub version: String,
}

/// The kind of song a container declares.  The set of kinds used in the wild
/// is open, so anything recognisable is carried as an opaque label.
pub enum SongType {
    Other(String),
    Undefined,
}

/// The kind of subtitles a container declares; open set, carried opaquely.
pub enum SubtitleType {
    Other(String),
    Undefined,
}

/// The language a container declares for its lyrics.
pub enum KaraokeLanguage {
    Thai,
    English,
    Other(String),
    Undefined,
}

/// Song metadata, as far as the source container provides it.
pub struct KaraokeInfo {
    /// Catalogue code of the song, where the container has one.
    pub code: Option<String>,
    pub song_type: SongType,
    pub subtitle_type: SubtitleType,
    /// Song title.
    pub title: String,
    /// Musical key of the song.
    pub key: String,
    /// Artist of the song.
    pub author: String,
    pub language: KaraokeLanguage,
}

/// One scroll checkpoint: the MIDI time at which the lyrics advance.
#[derive(Debug, Clone, Copy, Ord, PartialEq, PartialOrd, Eq)]
pub struct KaraokeCursorTick {
    pub tick: u32,
}

impl KaraokeCursorTick {
    pub fn new(tick: u32) -> (r: KaraokeCursorTick)
        ensures
            r.tick == tick,
    {
        KaraokeCursorTick { tick }
    }
}

/// The timing cursor: the scroll checkpoints of a song in on-disk order,
/// plus the index of the checkpoint playback last scrolled to.
///
/// The stored sequence is not assumed sorted; lookups search it as it is.
pub struct KaraokeCursor {
    pub data: Vec<KaraokeCursorTick>,
    pub pos: usize,
}

impl KaraokeCursor {
    /// The tick values in storage order.
    pub open spec fn ticks(&self) -> Seq<u32> {
        self.data@.map_values(|t: KaraokeCursorTick| t.tick)
    }

    /// Builds a cursor from plain tick times, starting at position 0.
    pub fn from(data: Vec<u32>) -> (r: KaraokeCursor)
        ensures
            r.ticks() == data@,
            r.pos == 0,
    {
        let mut out: Vec<KaraokeCursorTick> = Vec::new();
        let mut i: usize = 0;
        while i < data.len()
            invariant
                i <= data@.len(),
                out@.len() == i,
                forall|j: int| 0 <= j < i ==> out@[j].tick == data@[j],
            decreases data@.len() - i,
        {
            out.push(KaraokeCursorTick { tick: data[i] });
            i = i + 1;
        }
        let r = KaraokeCursor { data: out, pos: 0 };
        proof {
            assert(r.ticks() =~= data@);
        }
        r
    }

    /// How many scroll checkpoints the cursor holds.
    pub fn len(&self) -> (r: usize)
        ensures
            r == self.data@.len(),
    {
        self.data.len()
    }

    /// The current scroll position.
    pub fn pos(&self) -> (r: usize)
        ensures
            r == self.pos,
    {
        self.pos
    }

    /// The checkpoint at a given index, if it exists.
    pub fn get(&self, index: usize) -> (r: Option<KaraokeCursorTick>)
        ensures
            r == (if index < self.data@.len() {
                Some(self.data@[index as int])
            } else {
                None::<KaraokeCursorTick>
            }),
    {
        if index < self.data.len() {
            Some(self.data[index])
        } else {
            None
        }
    }

    /// The first position whose checkpoint is exactly at `time`, if any.
    pub fn scroll_check(&self, time: u32) -> (r: Option<usize>)
        ensures
            match r {
                Some(j) => is_first_match(self.ticks(), time, j as int),
                None => !exists|i: int| 0 <= i < self.ticks().len() && self.ticks()[i] == time,
            },
    {
        let mut i: usize = 0;
        while i < self.data.len()
            invariant
                i <= self.data@.len(),
                forall|j: int| 0 <= j < i ==> self.ticks()[j] != time,
            decreases self.data@.len() - i,
        {
            if self.data[i].tick == time {
                return Some(i);
            }
            i = i + 1;
        }
        None
    }

    /// Seeks directly to an index, bounds-checked; out of range leaves the
    /// cursor unchanged.
    pub fn scroll_to(&mut self, index: usize) -> (r: Option<KaraokeCursorTick>)
        ensures
            final (self).data == old(self).data,
            match r {
                Some(t) => index < old(self).data@.len() && t == old(self).data@[index as int]
                    && final (self).pos == index,
                None => index >= old(self).data@.len() && final (self).pos == old(self).pos,
            },
    {
        if index < self.data.len() {
            self.pos = index;
            Some(self.data[index])
        } else {
            None
        }
    }

    /// Scrolls to the latest checkpoint at or before `time`: returns it and
    /// moves the position to its first occurrence in storage order, or
    /// returns nothing (and stays put) when every checkpoint is later.
    pub fn scroll(&mut self, time: u32) -> (r: Option<KaraokeCursorTick>)
        ensures
            final (self).data == old(self).data,
            match r {
                Some(t) => {
                    &&& is_latest_at_or_before(old(self).ticks(), time, t.tick)
                    &&& is_first_position_of(old(self).ticks(), t.tick, final (self).pos as int)
                },
                None => {
                    &&& !has_tick_at_or_before(old(self).ticks(), time)
                    &&& final (self).pos == old(self).pos
                },
            },
    {
        let mut best: Option<(u32, usize)> = None;
        let mut i: usize = 0;
        while i < self.data.len()
            invariant
                i <= self.data@.len(),
                match best {
                    Some((v, j)) => {
                        &&& j < i
                        &&& self.ticks()[j as int] == v
                        &&& v <= time
                        &&& forall|k: int|
                            0 <= k < i && self.ticks()[k] <= time ==> self.ticks()[k] <= v
                        &&& forall|k: int| 0 <= k < j ==> self.ticks()[k] != v
                    },
                    None => forall|k: int| 0 <= k < i ==> self.ticks()[k] > time,
                },
            decreases self.data@.len() - i,
        {
            let t = self.data[i].tick;
            if t <= time {
                match best {
                    Some((v, _)) => {
                        if t > v {
                            best = Some((t, i));
                        }
                    },
                    None => {
                        best = Some((t, i));
                    },
                }
            }
            i = i + 1;
        }
        match best {
            Some((v, j)) => {
                self.pos = j;
                Some(KaraokeCursorTick { tick: v })
            },
            None => None,
        }
    }

    /// The checkpoint the cursor currently stands on, if the position is in
    /// range.
    pub fn last_scroll(&self) -> (r: Option<KaraokeCursorTick>)
        ensures
            r == (if self.pos < self.data@.len() {
                Some(self.data@[self.pos as int])
            } else {
                None::<KaraokeCursorTick>
            }),
    {
        if self.pos < self.data.len() {
            Some(self.data[self.pos])
        } else {
            None
        }
    }

    /// The checkpoint one past the current position, if any.
    pub fn next(&self) -> (r: Option<KaraokeCursorTick>)
        ensures
            r == (if self.pos + 1 < self.data@.len() {
                Some(self.data@[self.pos as int + 1])
            } else {
                None::<KaraokeCursorTick>
            }),
    {
        if self.pos < self.data.len() && self.pos + 1 < self.data.len() {
            Some(self.data[self.pos + 1])
        } else {
            None
        }
    }

    /// The checkpoint one before the current position; at position 0 there
    /// is none.
    pub fn prev(&self) -> (r: Option<KaraokeCursorTick>)
        ensures
            r == (if 1 <= self.pos && self.pos - 1 < self.data@.len() {
                Some(self.data@[self.pos as int - 1])
            } else {
                None::<KaraokeCursorTick>
            }),
    {
        if self.pos >= 1 && self.pos - 1 < self.data.len() {
            Some(self.data[self.pos - 1])
        } else {
            None
        }
    }
}

} // verus!
