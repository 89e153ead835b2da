//! A waiting policy for polling loops: a number of yields, then sleeps.
use std::time::Duration;
use vstd::prelude::*;

verus! {

/// What a polling loop does while it waits.
#[derive(Debug, Clone, Copy, PartialEq, Eq, Structural)]
pub enum WaitStep {
    /// Give the processor to another thread and come back at once.
    Yield,
    /// Sleep for the waiter's sleep duration.
    Sleep,
}

/// Yields for a given number of rounds, then sleeps; `reset` starts the yields over.
#[derive(Debug)]
pub struct AdaptativeWait {
    pub remaining_rounds: usize,
    pub total_rounds: usize,
    pub sleep_duration: Duration,
}

impl AdaptativeWait {
    pub fn new(yield_rounds: usize, sleep_duration: Duration) -> (r: Self)
        ensures
            r.remaining_rounds == yield_rounds,
            r.total_rounds == yield_rounds,
            r.sleep_duration == sleep_duration,
    {
        AdaptativeWait { remaining_rounds: yield_rounds, total_rounds: yield_rounds, sleep_duration }
    }

    /// The next step of waiting: a yield while rounds remain, each using one up, then sleeps.
    pub fn wait(&mut self) -> (r: WaitStep)
        ensures
            old(self).remaining_rounds > 0 ==> r == WaitStep::Yield && final(self).remaining_rounds
                == old(self).remaining_rounds - 1,
            old(self).remaining_rounds == 0 ==> r == WaitStep::Sleep && final(self).remaining_rounds
                == 0,
            final(self).total_rounds == old(self).total_rounds,
            final(self).sleep_duration == old(self).sleep_duration,
    {
        if self.remaining_rounds > 0 {
            self.remaining_rounds = self.remaining_rounds - 1;
            WaitStep::Yield
        } else {
            WaitStep::Sleep
        }
    }

    /// Restores all the yield rounds.
    pub fn reset(&mut self)
        ensures
            final(self).remaining_rounds == old(self).total_rounds,
            final(self).total_rounds == old(self).total_rounds,
            final(self).sleep_duration == old(self).sleep_duration,
    {
        self.remaining_rounds = self.total_rounds;
    }

    pub fn remaining_rounds(&self) -> (r: usize)
        ensures
            r == self.remaining_rounds,
    {
        self.remaining_rounds
    }

    pub fn sleep_duration(&self) -> (r: Duration)
        ensures
            r == self.sleep_duration,
    {
        self.sleep_duration
    }
}

} // verus!
