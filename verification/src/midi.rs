//! The note-display model: which notes are currently sounding on each MIDI
//! track.  Playback feeds note events in; a UI reads the tracks out.  This is
//! a plain value handed between the two, not shared state.

use vstd::prelude::*;

verus! {

/// One currently sounding note.
#[derive(Debug, Clone, Copy, Ord, PartialEq, PartialOrd, Eq)]
pub struct Note {
    pub note: u8,
    pub velocity: u8,
    pub channel: u8,
}

/// The sounding notes of one track, in the order they were struck.
#[derive(Debug, Clone, Ord, PartialEq, PartialOrd, Eq)]
pub struct Track {
    pub notes: Vec<Note>,
}

/// The display state: one track per MIDI channel slot.
#[derive(Debug, Clone, Ord, PartialEq, PartialOrd, Eq)]
pub struct MidiDisplay {
    pub tracks: Vec<Track>,
}

/// Whether a sounding note matches a note-off event's key and channel.
pub open spec fn note_matches(n: Note, note: u8, channel: u8) -> bool {
    n.note == note && n.channel == channel
}

/// The position a note-off event removes: the first sounding note with the
/// event's key and channel, or position 0 when none matches.
pub open spec fn note_off_index(ns: Seq<Note>, note: u8, channel: u8) -> int
    decreases ns.len(),
{
    if ns.len() == 0 {
        0int
    } else if note_matches(ns[0], note, channel) {
        0int
    } else if exists|j: int| 0 <= j < ns.len() && note_matches(ns[j], note, channel) {
        1 + note_off_index(ns.drop_first(), note, channel)
    } else {
        0int
    }
}

/// A scan that saw no match before `e`, and a match at `e` (or ran out),
/// pins down [`note_off_index`].
proof fn lemma_note_off_index_at(ns: Seq<Note>, note: u8, channel: u8, e: int)
    requires
        0 <= e <= ns.len(),
        forall|j: int| 0 <= j < e ==> !note_matches(ns[j], note, channel),
        e == ns.len() || note_matches(ns[e], note, channel),
    ensures
        note_off_index(ns, note, channel) == if e < ns.len() {
            e
        } else {
            0int
        },
    decreases e,
{
    if e == ns.len() {
        assert(forall|j: int|
            0 <= j < ns.len() ==> !note_matches(ns[j], note, channel));
        if ns.len() != 0 {
            assert(!note_matches(ns[0], note, channel));
        }
    } else if e == 0 {
        assert(note_matches(ns[0], note, channel));
    } else {
        assert(!note_matches(ns[0], note, channel));
        assert(note_matches(ns[e], note, channel));
        let rest = ns.drop_first();
        assert(forall|j: int| 0 <= j < e - 1 ==> !note_matches(rest[j], note, channel));
        assert(note_matches(rest[e - 1], note, channel));
        lemma_note_off_index_at(rest, note, channel, e - 1);
    }
}

impl MidiDisplay {
    /// An empty display with one track slot per MIDI channel.
    pub fn new() -> (r: MidiDisplay)
        ensures
            r.tracks@.len() == 16,
            forall|t: int| 0 <= t < 16 ==> r.tracks@[t].notes@.len() == 0,
    {
        let mut tracks: Vec<Track> = Vec::new();
        let mut i: usize = 0;
        while i < 16
            invariant
                i <= 16,
                tracks@.len() == i,
                forall|t: int| 0 <= t < i ==> tracks@[t].notes@.len() == 0,
            decreases 16 - i,
        {
            tracks.push(Track { notes: Vec::new() });
            i = i + 1;
        }
        MidiDisplay { tracks }
    }

    /// Records a struck note at the end of its track.
    pub fn note_on(&mut self, note: u8, velocity: u8, channel: u8, track: usize)
        requires
            track < old(self).tracks@.len(),
        ensures
            final (self).tracks@.len() == old(self).tracks@.len(),
            forall|t: int|
                0 <= t < old(self).tracks@.len() && t != track ==> final (self).tracks@[t] == old(
                    self,
                ).tracks@[t],
            final (self).tracks@[track as int].notes@ == old(
                self,
            ).tracks@[track as int].notes@.push(Note { note, velocity, channel }),
    {
        let mut t = self.tracks.remove(track);
        t.notes.push(Note { note, velocity, channel });
        self.tracks.insert(track, t);
    }

    /// Silences a note: removes the first sounding note of the track with
    /// the event's key and channel, or — matching the historical player when
    /// an off-event arrives for a note it never saw — the oldest note of the
    /// track.  The track must be sounding at least one note.
    pub fn note_off(&mut self, note: u8, channel: u8, track: usize)
        requires
            track < old(self).tracks@.len(),
            old(self).tracks@[track as int].notes@.len() > 0,
        ensures
            final (self).tracks@.len() == old(self).tracks@.len(),
            forall|t: int|
                0 <= t < old(self).tracks@.len() && t != track ==> final (self).tracks@[t] == old(
                    self,
                ).tracks@[t],
            final (self).tracks@[track as int].notes@ == old(
                self,
            ).tracks@[track as int].notes@.remove(
                note_off_index(old(self).tracks@[track as int].notes@, note, channel),
            ),
    {
        let ghost ns: Seq<Note> = self.tracks@[track as int].notes@;
        let mut t = self.tracks.remove(track);
        let mut i: usize = 0;
        let mut at: usize = 0;
        let mut found = false;
        while i < t.notes.len()
            invariant
                i <= t.notes@.len(),
                t.notes@ == ns,
                found ==> at < i && note_matches(ns[at as int], note, channel) && forall|k: int|
                    0 <= k < at ==> !note_matches(ns[k], note, channel),
                !found ==> at == 0 && forall|k: int|
                    0 <= k < i ==> !note_matches(ns[k], note, channel),
            decreases t.notes@.len() - i,
        {
            if !found {
                let n = t.notes[i];
                if n.note == note && n.channel == channel {
                    found = true;
                    at = i;
                }
            }
            i = i + 1;
        }
        proof {
            if found {
                lemma_note_off_index_at(ns, note, channel, at as int);
            } else {
                lemma_note_off_index_at(ns, note, channel, ns.len() as int);
            }
        }
        t.notes.remove(at);
        self.tracks.insert(track, t);
    }
}

} // verus!
