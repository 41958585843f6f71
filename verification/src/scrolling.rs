//! The shared mathematical model of a timing cursor: a sequence of tick
//! values (MIDI times at which the lyrics scroll) searched by playback time.
//!
//! Both container formats decode into a cursor over this model; the
//! predicates here say what its lookup operations return.

use vstd::prelude::*;

verus! {

/// Some tick at or before `time` exists.
pub open spec fn has_tick_at_or_before(ticks: Seq<u32>, time: u32) -> bool {
    exists|i: int| 0 <= i < ticks.len() && ticks[i] <= time
}

/// `v` is the latest tick not after `time`: it occurs in the sequence, does
/// not exceed `time`, and every tick that does not exceed `time` is at most
/// `v`.
pub open spec fn is_latest_at_or_before(ticks: Seq<u32>, time: u32, v: u32) -> bool {
    &&& v <= time
    &&& exists|i: int| 0 <= i < ticks.len() && ticks[i] == v
    &&& forall|i: int| 0 <= i < ticks.len() && ticks[i] <= time ==> ticks[i] <= v
}

/// `j` is the first position holding the value `v`.
pub open spec fn is_first_position_of(ticks: Seq<u32>, v: u32, j: int) -> bool {
    &&& 0 <= j < ticks.len()
    &&& ticks[j] == v
    &&& forall|i: int| 0 <= i < j ==> ticks[i] != v
}

/// `j` is the first position holding exactly `time`.
pub open spec fn is_first_match(ticks: Seq<u32>, time: u32, j: int) -> bool {
    is_first_position_of(ticks, time, j)
}

} // verus!
