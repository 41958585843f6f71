//! Decoding of raw cursor bytes into MIDI ticks.
//!
//! A cursor resource is a run of 4-byte strides.  Only the first two bytes of
//! each stride carry data — a little-endian 16-bit tick — and the other two
//! are ignored for compatibility with the on-disk format; a final partial
//! stride contributes its first byte as the low byte of a last tick.

use vstd::prelude::*;

verus! {

/// How many ticks a buffer of `len` bytes decodes to: one per started
/// 4-byte stride.
pub open spec fn stride_count(len: int) -> int {
    len / 4 + if len % 4 == 0 {
        0int
    } else {
        1int
    }
}

/// The 16-bit tick carried by stride `k`: two little-endian bytes, or the
/// first byte alone when the buffer ends inside the stride.
pub open spec fn stride_tick16(data: Seq<u8>, k: int) -> u16 {
    let i = 4 * k;
    if i + 1 < data.len() {
        (data[i] + 256 * data[i + 1]) as u16
    } else {
        data[i] as u16
    }
}

/// All ticks of a buffer, widened to the 32-bit values playback uses.
pub open spec fn stride_ticks(data: Seq<u8>) -> Seq<u32> {
    Seq::new(stride_count(data.len() as int) as nat, |k: int| stride_tick16(data, k) as u32)
}

/// One decoded scroll time.
pub struct CurTick {
    /// The 16-bit MIDI time at which a character scrolls.
    pub time: u16,
}

/// A raw, not yet decoded cursor resource.
pub struct CurData {
    pub data: Vec<u8>,
}

impl CurData {
    /// Wraps raw cursor bytes for decoding.
    pub fn read(data: Vec<u8>) -> (r: CurData)
        ensures
            r.data@ == data@,
    {
        CurData { data }
    }

    /// Decodes the strides into their 16-bit tick values.
    pub fn into_tick(&self) -> (r: Vec<u16>)
        ensures
            r@.len() == stride_count(self.data@.len() as int),
            forall|k: int| 0 <= k < r@.len() ==> r@[k] == stride_tick16(self.data@, k),
    {
        let len = self.data.len();
        let count = len / 4 + if len % 4 == 0 {
            0
        } else {
            1
        };
        let mut ticks: Vec<u16> = Vec::new();
        let mut k: usize = 0;
        while k < count
            invariant
                self.data@.len() <= usize::MAX,
                count == stride_count(self.data@.len() as int),
                k <= count,
                4 * k <= self.data@.len() + 3,
                ticks@.len() == k,
                forall|j: int| 0 <= j < k ==> ticks@[j] == stride_tick16(self.data@, j),
            decreases count - k,
        {
            proof {
                assert(4 * stride_count(self.data@.len() as int) <= self.data@.len() as int + 3);
                assert(4 * (k as int) <= self.data@.len() as int - 1);
            }
            let i = k * 4;
            let time: u16 = if i + 1 < self.data.len() {
                self.data[i] as u16 + 256 * (self.data[i + 1] as u16)
            } else {
                self.data[i] as u16
            };
            ticks.push(time);
            k = k + 1;
        }
        ticks
    }
}

/// A decoded cursor resource of the oldest layout: a tempo value followed by
/// the scroll times.
pub struct Cur {
    pub bpm: u16,
    pub data: Vec<CurTick>,
}

} // verus!
