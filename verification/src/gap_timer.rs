//! A timer that tells when a gap of time has passed.
//!
//! It is read against a clock that keeps running while the simulation is
//! paused, so that what hangs on it goes on working then. Times are counted
//! in nanoseconds since the clock started.
use vstd::prelude::*;

verus! {

/// Tells how many gaps have passed since it last told of one. It is to be
/// ticked by one caller only.
#[derive(Clone, Copy, Debug, PartialEq, Eq, Structural)]
pub struct GapTimer {
    /// The time of the last tick that told of a gap.
    pub last: u128,
    /// The length of a gap.
    pub gap: u128,
}

impl Default for GapTimer {
    /// The timer with no gap and no time, which cannot be ticked.
    fn default() -> (timer: GapTimer)
        ensures
            timer == (GapTimer { last: 0, gap: 0 }),
    {
        GapTimer { last: 0, gap: 0 }
    }
}

impl GapTimer {
    /// The timer of the given gap, last ticked at the start of the clock.
    pub fn new(gap: u128) -> (timer: GapTimer)
        ensures
            timer == (GapTimer { last: 0, gap }),
    {
        GapTimer { last: 0, gap }
    }

    /// The timer can be ticked at `time`: time has not run backward, and
    /// there is a gap to measure with.
    pub open spec fn can_tick(self, time: u128) -> bool {
        self.last <= time && self.gap > 0
    }

    /// A gap or more has passed at `time` since the last tick that told of
    /// one.
    pub open spec fn is_due(self, time: u128) -> bool {
        time - self.last >= self.gap
    }

    /// What a tick at `time` returns: the number of whole gaps since the last
    /// tick that told of one, as far as 32 bits hold it.
    pub open spec fn gaps_at(self, time: u128) -> nat {
        (((time - self.last) / (self.gap as int)) % 0x1_0000_0000) as nat
    }

    /// The timer after a tick at `time`: it starts over where a gap has
    /// passed, and is left as it is otherwise.
    pub open spec fn ticked(self, time: u128) -> GapTimer {
        if self.is_due(time) {
            GapTimer { last: time, gap: self.gap }
        } else {
            self
        }
    }

    /// Tells whether the timer can be ticked at `time`.
    pub fn is_tickable(&self, time: u128) -> (b: bool)
        ensures
            b == self.can_tick(time),
    {
        self.last <= time && self.gap > 0
    }

    /// Returns the number of whole gaps that have passed since the last tick
    /// that told of one, and starts over if there is one at least.
    pub fn tick(&mut self, time: u128) -> (gaps: u32)
        requires
            old(self).can_tick(time),
        ensures
            *final(self) == old(self).ticked(time),
            gaps == old(self).gaps_at(time),
            gaps > 0 ==> old(self).is_due(time),
    {
        let diff: u128 = time - self.last;
        if diff < self.gap {
            proof {
                vstd::arithmetic::div_mod::lemma_basic_div(diff as int, self.gap as int);
            }
            return 0;
        }
        self.last = time;
        ((diff / self.gap) % 0x1_0000_0000) as u32
    }
}

} // verus!
