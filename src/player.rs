use vstd::prelude::*;
use crate::scheduler::PatternSample;
use crate::speed::{Speed, TkDuration};

verus! {

/// Whether an action that has run for `elapsed_ms` is over.
pub fn expired(duration: TkDuration, elapsed_ms: u64) -> (r: bool)
    ensures
        r == match duration {
            TkDuration::Infinite => false,
            TkDuration::Timed(d) => elapsed_ms >= d,
        },
{
    match duration {
        TkDuration::Infinite => false,
        TkDuration::Timed(d) => elapsed_ms >= d,
    }
}

/// Where a pattern's playback stands: the next sample, and when the current
/// pass through the pattern started, in milliseconds after playback began.
#[derive(Clone, Copy, Debug, PartialEq, Eq, Structural)]
pub struct PatternCursor {
    pub index: usize,
    pub cycle_start: u64,
    /// Set once nothing more will be played.
    pub finished: bool,
}

impl PatternCursor {
    pub fn new() -> (r: PatternCursor)
        ensures
            r.index == 0,
            r.cycle_start == 0,
            !r.finished,
    {
        PatternCursor { index: 0, cycle_start: 0, finished: false }
    }

    /// Hands out the next sample, with the time at which it is due, and moves
    /// on. After the last sample the pattern starts over, one pattern length
    /// (the last sample's offset) later; a pattern of length 0, or one that
    /// has no samples, is played once. Gives `None` when nothing more is played.
    pub fn next(&mut self, samples: &Vec<PatternSample>) -> (r: Option<(u64, Speed)>)
        requires
            old(self).finished || old(self).index < samples@.len(),
        ensures
            final(self).finished || final(self).index < samples@.len(),
            old(self).finished ==> r.is_none() && *final(self) == *old(self),
            !old(self).finished ==> {
                let s = samples@[old(self).index as int];
                let due = old(self).cycle_start + s.offset_ms;
                let last = old(self).index + 1 == samples@.len();
                let length = samples@.last().offset_ms;
                &&& due > u64::MAX ==> r.is_none() && final(self).finished
                &&& due <= u64::MAX ==> r == Some(((due as u64), s.strength))
                &&& due <= u64::MAX && !last ==> final(self).index == old(self).index + 1 && final(self).cycle_start
                    == old(self).cycle_start && !final(self).finished
                &&& due <= u64::MAX && last ==> final(self).index == 0 && (final(self).finished <==> (length == 0
                    || old(self).cycle_start + length > u64::MAX)) && (!final(self).finished ==> final(self).cycle_start
                    == old(self).cycle_start + length)
            },
    {
        if self.finished {
            return None;
        }
        let s = samples[self.index];
        if s.offset_ms > u64::MAX - self.cycle_start {
            self.finished = true;
            return None;
        }
        let due = self.cycle_start + s.offset_ms;
        if self.index < samples.len() - 1 {
            self.index = self.index + 1;
        } else {
            let length = samples[samples.len() - 1].offset_ms;
            self.index = 0;
            if length == 0 || length > u64::MAX - self.cycle_start {
                self.finished = true;
            } else {
                self.cycle_start = self.cycle_start + length;
            }
        }
        Some((due, s.strength))
    }
}

/// A cursor on the first sample of a pattern, or a finished one for a pattern
/// without samples.
pub fn cursor_for(samples: &Vec<PatternSample>) -> (r: PatternCursor)
    ensures
        r.finished == (samples@.len() == 0),
        r.finished || r.index < samples@.len(),
        r.index == 0,
        r.cycle_start == 0,
{
    PatternCursor { index: 0, cycle_start: 0, finished: samples.len() == 0 }
}

} // verus!
