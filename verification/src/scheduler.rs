//! The adaptive refresh scheduler.
//!
//! Instead of one long sleep — which can wildly overshoot the wall-clock
//! target across a suspend or hibernate — the scheduler sleeps in halving
//! steps and re-validates the remaining wait after each wake.  The number of
//! wakes is logarithmic in the wait, and an hour roll-over is noticed
//! promptly after a resume.
//!
//! The scheduler itself never sleeps: `next_sleep` announces how long the
//! caller should sleep, and `observe` takes the re-validated wait computed
//! from a fresh clock reading after the wake.  The caller loops until
//! `next_sleep` returns `None`.

use vstd::prelude::*;

verus! {

/// Phase of one scheduled wait.
#[derive(Clone, Copy, Debug, PartialEq, Eq, Structural)]
pub enum SchedulerPhase {
    /// Sleeping in halving steps, re-checking the clock after each.
    Halving,
    /// The remaining wait is down to a second: one final sleep settles it.
    Settling,
    /// The wait is over, either settled or cut short by an hour roll-over.
    Done,
}

/// State of one scheduled wait through its halving steps.
pub struct RefreshScheduler {
    pub phase: SchedulerPhase,
    /// Seconds the next halving step starts from.
    pub remaining: u64,
    /// The smallest re-validated wait seen so far.
    pub best: u64,
}

impl RefreshScheduler {
    /// The remaining step never exceeds the best known wait.
    pub open spec fn wf(self) -> bool {
        self.remaining <= self.best
    }

    /// Starts a wait of `wait_seconds`.
    pub fn new(wait_seconds: u64) -> (s: RefreshScheduler)
        ensures
            s.phase is Halving,
            s.remaining == wait_seconds,
            s.best == wait_seconds,
            s.wf(),
    {
        RefreshScheduler { phase: SchedulerPhase::Halving, remaining: wait_seconds, best: wait_seconds }
    }

    /// Whether the caller should re-validate the wait after the sleep that
    /// was last announced.  The final settling sleep needs no re-check.
    pub fn wants_recheck(&self) -> (r: bool)
        ensures
            r == (self.phase is Halving),
    {
        matches!(self.phase, SchedulerPhase::Halving)
    }

    /// Announces the next sleep, or `None` when the wait is over.
    ///
    /// While halving with more than a second left, the remaining wait is cut
    /// in half and the caller sleeps that long.  Once it is down to a second
    /// the scheduler settles with one final one-second sleep, so the wait is
    /// always met and never cut to zero.
    pub fn next_sleep(&mut self) -> (r: Option<u64>)
        requires
            old(self).wf(),
        ensures
            final(self).wf(),
            final(self).best == old(self).best,
            old(self).phase is Halving && old(self).remaining > 1 ==> {
                &&& final(self).phase is Halving
                &&& final(self).remaining == old(self).remaining / 2
                &&& final(self).remaining < old(self).remaining
                &&& r == Some(final(self).remaining)
            },
            old(self).phase is Halving && old(self).remaining <= 1 ==> {
                &&& final(self).phase is Settling
                &&& final(self).remaining == old(self).remaining
                &&& r == Some(1u64)
            },
            old(self).phase is Settling ==> final(self).phase is Done && r is None && final(self).remaining
                == old(self).remaining,
            old(self).phase is Done ==> *final(self) == *old(self) && r is None,
    {
        match self.phase {
            SchedulerPhase::Halving => {
                if self.remaining > 1 {
                    self.remaining = self.remaining / 2;
                    Some(self.remaining)
                } else {
                    self.phase = SchedulerPhase::Settling;
                    Some(1)
                }
            },
            SchedulerPhase::Settling => {
                self.phase = SchedulerPhase::Done;
                None
            },
            SchedulerPhase::Done => None,
        }
    }

    /// Takes the re-validated wait computed after a wake.
    ///
    /// An hour roll-over ends the wait at once: the next cycle is already
    /// due.  Otherwise a freshly computed wait smaller than the best known
    /// one is adopted as the new remaining wait; a larger one is ignored,
    /// and the halving of the current remaining wait continues.
    pub fn observe(&mut self, hour_rolled_over: bool, new_wait: u64)
        requires
            old(self).wf(),
        ensures
            final(self).wf(),
            hour_rolled_over ==> final(self).phase is Done && final(self).remaining == old(self).remaining
                && final(self).best == old(self).best,
            !hour_rolled_over && old(self).phase is Halving && new_wait < old(self).best ==> {
                &&& final(self).phase is Halving
                &&& final(self).remaining == new_wait
                &&& final(self).best == new_wait
            },
            !hour_rolled_over && old(self).phase is Halving && new_wait >= old(self).best
                ==> *final(self) == *old(self),
            !hour_rolled_over && !(old(self).phase is Halving) ==> *final(self) == *old(self),
    {
        if hour_rolled_over {
            self.phase = SchedulerPhase::Done;
        } else if matches!(self.phase, SchedulerPhase::Halving) && new_wait < self.best {
            self.remaining = new_wait;
            self.best = new_wait;
        }
    }
}

} // verus!
