//! Seeking in a playing video: which seek request goes to the player now,
//! and which waits until the player has finished the one before.
//!
//! Positions are nanoseconds from the start of the video.

use vstd::prelude::*;

verus! {

/// How a seek request treats a seek that is still under way.
#[derive(Clone, Copy, Debug, PartialEq, Eq, Structural)]
pub enum SeekMode {
    /// Cancels the active or pending seek requests and starts a new one.
    Instant,
    /// Postpones the request if there is an active seek in progress, so
    /// that frequent requests produce intermediate frames.
    Buffered,
}

/// The seek under way and the one that waits for it.
#[derive(Clone, Copy, Debug, PartialEq, Eq, Structural)]
pub struct SeekRequestBuffer {
    pub current: Option<u64>,
    pub pending: Option<u64>,
}

/// The distance below which a seek goes to the exact position rather than
/// to the nearest key frame: ten seconds.
pub const ACCURATE_SEEK_THRESHOLD: u64 = 10_000_000_000;

/// The distance between two positions.
pub open spec fn distance(a: u64, b: u64) -> int {
    if a <= b {
        b - a
    } else {
        a - b
    }
}

/// Whether a seek from `pos` to `new_pos` is to be exact.
pub fn is_accurate_seek(pos: u64, new_pos: u64) -> (r: bool)
    ensures
        r == (distance(pos, new_pos) < ACCURATE_SEEK_THRESHOLD),
{
    let diff = if pos <= new_pos {
        new_pos - pos
    } else {
        pos - new_pos
    };
    diff < ACCURATE_SEEK_THRESHOLD
}

impl SeekRequestBuffer {
    /// No seek under way, none waiting.
    pub fn new() -> (r: SeekRequestBuffer)
        ensures
            r == (SeekRequestBuffer { current: None, pending: None }),
    {
        SeekRequestBuffer { current: None, pending: None }
    }

    /// Forgets the seek under way and the one that waits.
    pub fn reset(&mut self)
        ensures
            *final(self) == (SeekRequestBuffer { current: None, pending: None }),
    {
        self.pending = None;
        self.current = None;
    }

    /// Takes a request to seek to `new_pos` and tells whether the player is
    /// to seek now. While a seek is under way a buffered request waits, and
    /// takes the place of one that waited before; an instant request
    /// forgets both. Where the player is to seek now, nothing is under way
    /// until `started` reports that it took the seek.
    pub fn seek(&mut self, new_pos: u64, mode: SeekMode) -> (now: bool)
        ensures
            now == (mode == SeekMode::Instant || old(self).current is None),
            now && mode == SeekMode::Instant ==> *final(self) == (SeekRequestBuffer {
                current: None,
                pending: None,
            }),
            now && mode == SeekMode::Buffered ==> *final(self) == *old(self),
            !now ==> *final(self) == (SeekRequestBuffer {
                current: old(self).current,
                pending: Some(new_pos),
            }),
    {
        if mode == SeekMode::Instant {
            self.reset();
        }
        if self.current.is_some() {
            self.pending = Some(new_pos);
            return false;
        }
        true
    }

    /// The player took the seek to `pos`: it is under way, and nothing
    /// waits.
    pub fn started(&mut self, pos: u64)
        ensures
            *final(self) == (SeekRequestBuffer { current: Some(pos), pending: None }),
    {
        self.current = Some(pos);
        self.pending = None;
    }

    /// The player finished a seek: the one that waited goes under way, and
    /// is returned for the player to take.
    pub fn finish_seeking(&mut self) -> (next: Option<u64>)
        ensures
            next == old(self).pending,
            *final(self) == (SeekRequestBuffer { current: old(self).pending, pending: None }),
    {
        self.current = self.pending.take();
        self.current
    }

    /// The player refused the seek that `finish_seeking` handed it:
    /// nothing is under way.
    pub fn seek_failed(&mut self)
        ensures
            *final(self) == (SeekRequestBuffer { current: None, pending: old(self).pending }),
    {
        self.current = None;
    }
}

} // verus!
