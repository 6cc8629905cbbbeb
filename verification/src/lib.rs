//! Time-bucketed wallpaper selection with an adaptive refresh scheduler.
//!
//! The library indexes a directory listing into hour-keyed (or name-keyed)
//! buckets of selectable items, resolves the active bucket to a list of
//! candidate file paths, applies a selection policy, and computes how long to
//! wait until the next decision point.  All file-system, process and clock
//! access happens outside the library; the functions here work on plain
//! values handed in by the caller.

pub mod backends;
pub mod calc;
pub mod config;
pub mod cycle;
pub mod scheduler;
pub mod wallpaper;

use vstd::prelude::*;

verus! {

/// A time of day, as read from the system clock.
///
/// Only the fields the scheduler reads are kept: the hour decides the active
/// bucket and roll-over detection, minute and second position the current
/// moment within the hour.
#[derive(Clone, Copy, Debug, PartialEq, Eq, Structural)]
pub struct ClockTime {
    pub hour: u8,
    pub minute: u8,
    pub second: u8,
}

impl ClockTime {
    /// A well-formed time of day on the 24-hour clock.
    pub open spec fn wf(self) -> bool {
        self.hour < 24 && self.minute < 60 && self.second < 60
    }

    /// Seconds elapsed since the top of the current hour.
    pub open spec fn spec_seconds_into_hour(self) -> int {
        self.minute * 60 + self.second
    }

    pub fn new(hour: u8, minute: u8, second: u8) -> (t: ClockTime)
        requires
            hour < 24,
            minute < 60,
            second < 60,
        ensures
            t == (ClockTime { hour, minute, second }),
            t.wf(),
    {
        ClockTime { hour, minute, second }
    }

    /// Seconds elapsed since the top of the current hour.
    pub fn seconds_into_hour(&self) -> (s: u64)
        requires
            self.wf(),
        ensures
            s == self.spec_seconds_into_hour(),
            s < 3600,
    {
        self.minute as u64 * 60 + self.second as u64
    }
}

} // verus!
