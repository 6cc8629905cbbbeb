//! Wait-time arithmetic: how long to sleep until the next refresh boundary,
//! detection of hour roll-over between two clock readings, and the slice
//! index used by the spread policy.

use crate::ClockTime;
use vstd::prelude::*;

verus! {

/// Seconds remaining until the next boundary that is a whole multiple of
/// `interval_seconds` measured from the top of the hour.  At a boundary
/// instant this is the full interval, never zero: the scheduler always waits
/// forward.
pub open spec fn spec_wait_time(interval_seconds: int, seconds_into_hour: int) -> int {
    interval_seconds - seconds_into_hour % interval_seconds
}

/// Seconds to wait until the next refresh.
///
/// `interval_seconds` is the refresh interval; a fractional interval in
/// minutes is rounded up to whole seconds by the caller.
pub fn wait_time(interval_seconds: u64, now: &ClockTime) -> (wait: u64)
    requires
        1 <= interval_seconds,
        now.wf(),
    ensures
        wait == spec_wait_time(interval_seconds as int, now.spec_seconds_into_hour()),
        1 <= wait <= interval_seconds,
        now.spec_seconds_into_hour() % (interval_seconds as int) == 0 ==> wait
            == interval_seconds,
{
    let current = now.seconds_into_hour();
    let remaining = current % interval_seconds;
    interval_seconds - remaining
}

/// Result of re-examining the clock while waiting: whether the hour rolled
/// over since the wait began, and the freshly computed wait if it did not.
pub open spec fn spec_refresh_time(
    interval_seconds: int,
    old_now: ClockTime,
    new_now: ClockTime,
) -> (bool, int) {
    if new_now.hour != old_now.hour {
        (true, 0)
    } else {
        (false, spec_wait_time(interval_seconds, new_now.spec_seconds_into_hour()))
    }
}

/// Re-checks the wait against a fresh clock reading.
///
/// If the hour changed between the two readings the wait is over immediately:
/// the caller must start the next cycle.  Otherwise the wait is recomputed
/// from the new reading.  A backward clock jump within the same hour value is
/// treated like any other same-hour reading.
pub fn refresh_time(interval_seconds: u64, old_now: &ClockTime, new_now: &ClockTime) -> (r: (
    bool,
    u64,
))
    requires
        1 <= interval_seconds,
        new_now.wf(),
    ensures
        (r.0, r.1 as int) == spec_refresh_time(interval_seconds as int, *old_now, *new_now),
        r.0 == (new_now.hour != old_now.hour),
        r.0 ==> r.1 == 0,
        !r.0 ==> 1 <= r.1 <= interval_seconds,
{
    if new_now.hour != old_now.hour {
        (true, 0)
    } else {
        (false, wait_time(interval_seconds, new_now))
    }
}

/// Two readings within the same hour never report a roll-over, and the
/// recomputed wait agrees with a direct computation from the second reading.
pub proof fn lemma_refresh_same_hour(interval_seconds: int, now1: ClockTime, now2: ClockTime)
    requires
        1 <= interval_seconds,
        now1.hour == now2.hour,
    ensures
        spec_refresh_time(interval_seconds, now1, now2) == (
            false,
            spec_wait_time(interval_seconds, now2.spec_seconds_into_hour()),
        ),
{
}

/// A reading in a different hour reports a roll-over with a zero wait,
/// whatever the interval.
pub proof fn lemma_refresh_hour_rolled_over(interval_seconds: int, now1: ClockTime, now2: ClockTime)
    requires
        1 <= interval_seconds,
        now1.hour != now2.hour,
    ensures
        spec_refresh_time(interval_seconds, now1, now2) == (true, 0int),
{
}

/// The slice of an evenly divided window that a moment `seconds` into the
/// window falls in, clamped to the last slice.
pub open spec fn spec_slice_index(seconds: int, window_seconds: int, total: int) -> int {
    if seconds * total / window_seconds < total - 1 {
        seconds * total / window_seconds
    } else {
        total - 1
    }
}

/// The index of the wallpaper that is due `seconds` into a window of
/// `window_seconds`, when the window is divided evenly among `total` items.
pub fn slice_index(seconds: u64, window_seconds: u64, total: usize) -> (idx: usize)
    requires
        1 <= total <= u32::MAX,
        1 <= window_seconds,
        seconds <= 0x10_0000,
    ensures
        idx == spec_slice_index(seconds as int, window_seconds as int, total as int),
        idx < total,
{
    proof {
        assert(seconds * total <= 0x10_0000 * 0xffff_ffff) by (nonlinear_arith)
            requires
                seconds <= 0x10_0000,
                total <= 0xffff_ffff,
        ;
    }
    let scaled = seconds * (total as u64);
    let raw = scaled / window_seconds;
    if raw < total as u64 - 1 {
        raw as usize
    } else {
        total - 1
    }
}

/// The current wallpaper group index: the hour is divided evenly among
/// `total_groups` groups, and the index of the group covering `now` is
/// returned.
pub fn get_group_index(now: &ClockTime, total_groups: usize) -> (idx: usize)
    requires
        1 <= total_groups <= u32::MAX,
        now.wf(),
    ensures
        idx == spec_slice_index(now.spec_seconds_into_hour(), 3600, total_groups as int),
        idx < total_groups,
{
    let seconds = now.seconds_into_hour();
    slice_index(seconds, 3600, total_groups)
}

/// When the slices divide the window evenly — `window_seconds` is
/// `total * slice_seconds` — the slice index is the plain quotient
/// `seconds / slice_seconds`, clamped to the last slice.
pub proof fn lemma_slice_index_even_division(seconds: int, slice_seconds: int, total: int)
    requires
        0 <= seconds,
        1 <= slice_seconds,
        1 <= total,
    ensures
        spec_slice_index(seconds, total * slice_seconds, total) == if seconds / slice_seconds
            < total - 1 {
            seconds / slice_seconds
        } else {
            total - 1
        },
{
    let window = total * slice_seconds;
    assert(seconds * total / window == seconds / slice_seconds) by {
        assert(seconds * total == total * seconds) by (nonlinear_arith);
        vstd::arithmetic::div_mod::lemma_div_multiples_vanish(seconds, total);
        vstd::arithmetic::div_mod::lemma_div_denominator(seconds * total, total, slice_seconds);
    }
}

/// Within a window the slice index never moves backwards as time advances.
pub proof fn lemma_slice_index_monotonic(s1: int, s2: int, window_seconds: int, total: int)
    requires
        0 <= s1 <= s2,
        1 <= window_seconds,
        1 <= total,
    ensures
        spec_slice_index(s1, window_seconds, total) <= spec_slice_index(s2, window_seconds, total),
{
    assert(s1 * total <= s2 * total) by (nonlinear_arith)
        requires
            0 <= s1 <= s2,
            0 <= total,
    ;
    vstd::arithmetic::div_mod::lemma_div_is_ordered(s1 * total, s2 * total, window_seconds);
}

} // verus!
