//! Per-cycle decisions of the control loop: which bucket the override
//! collection supplies for the current hour, and how a resolved candidate
//! list is turned into one applied wallpaper, a possibly shortened refresh
//! interval, and a wait strategy.

use crate::calc::{spec_slice_index, slice_index};
use crate::config::GroupSelectionStrategy;
use crate::wallpaper::{SpecialMap, WallpaperItem};
use crate::ClockTime;
use vstd::prelude::*;

verus! {

/// How the computed wait is slept away.
#[derive(Clone, Copy, Debug, PartialEq, Eq, Structural)]
pub enum WaitStrategy {
    /// One plain sleep for the whole wait; used once the spread policy has
    /// already cut the interval to a short, known-good slice.
    Sleep,
    /// The adaptive halving scheduler, re-validating the wait as it goes.
    Refresh,
}

/// The override name the configuration maps an hour to: the first table
/// row carrying that hour, if any.
pub open spec fn spec_special_name(entries: Seq<(u8, String)>, hour: u8) -> Option<String>
    decreases entries.len(),
{
    if entries.len() == 0 {
        None
    } else if entries[0].0 == hour {
        Some(entries[0].1)
    } else {
        spec_special_name(entries.drop_first(), hour)
    }
}

/// The first row for an hour is exactly the first row carrying it.
proof fn lemma_special_name_at(entries: Seq<(u8, String)>, hour: u8, j: int)
    requires
        0 <= j <= entries.len(),
        forall|t: int| 0 <= t < j ==> (#[trigger] entries[t]).0 != hour,
        j < entries.len() ==> entries[j].0 == hour,
    ensures
        if j == entries.len() {
            spec_special_name(entries, hour) is None
        } else {
            spec_special_name(entries, hour) == Some(entries[j].1)
        },
    decreases entries.len(),
{
    if entries.len() > 0 && j > 0 {
        assert forall|t: int| 0 <= t < j - 1 implies (#[trigger] entries.drop_first()[t]).0
            != hour by {
            assert(entries[t + 1] == entries.drop_first()[t]);
        }
        lemma_special_name_at(entries.drop_first(), hour, j - 1);
    }
}

/// Looks up the override name configured for `hour`.
pub fn special_name_for_hour(special_entries: &Vec<(u8, String)>, hour: u8) -> (r: Option<
    &String,
>)
    ensures
        match r {
            Some(p) => spec_special_name(special_entries@, hour) == Some(*p),
            None => spec_special_name(special_entries@, hour) is None,
        },
{
    let mut i: usize = 0;
    while i < special_entries.len()
        invariant
            i <= special_entries@.len(),
            forall|t: int| 0 <= t < i ==> (#[trigger] special_entries@[t]).0 != hour,
        decreases special_entries@.len() - i,
    {
        let row = &special_entries[i];
        if row.0 == hour {
            proof {
                lemma_special_name_at(special_entries@, hour, i as int);
            }
            return Some(&row.1);
        }
        i += 1;
    }
    proof {
        lemma_special_name_at(special_entries@, hour, special_entries@.len() as int);
    }
    None
}

/// Consults the override collection for `hour`: if the configuration maps
/// the hour to a name and the scanned collection has a bucket under that
/// name, that bucket is the cycle's selection source — the main collection
/// is not consulted at all.
pub fn select_from_special<'a>(
    special: &'a SpecialMap,
    special_entries: &Vec<(u8, String)>,
    hour: u8,
) -> (r: Option<&'a Vec<WallpaperItem>>)
    ensures
        match r {
            Some(v) => {
                &&& spec_special_name(special_entries@, hour) is Some
                &&& exists|i: int|
                    0 <= i < special@.len() && #[trigger] special@[i].0 == spec_special_name(
                        special_entries@,
                        hour,
                    ).unwrap()@ && v@ == special@[i].1
            },
            None => spec_special_name(special_entries@, hour) is None || forall|i: int|
                0 <= i < special@.len() ==> #[trigger] special@[i].0 != spec_special_name(
                    special_entries@,
                    hour,
                ).unwrap()@,
        },
{
    match special_name_for_hour(special_entries, hour) {
        Some(name) => special.get(name),
        None => None,
    }
}

/// What one cycle decided: which candidate to apply, the interval the rest
/// of the cycle runs with, and how to wait it out.
pub struct CyclePlan {
    /// The position of the applied candidate, or nothing to apply.
    pub applied_index: Option<usize>,
    /// The refresh interval for the rest of the cycle, in seconds.
    pub interval_seconds: u64,
    pub wait_strategy: WaitStrategy,
    /// Whether there were more candidates than the interval has minutes —
    /// the spread slices are sub-minute, worth a warning but not an error.
    pub spread_overflow: bool,
}

/// Applies the selection policy to the resolved candidate list.
///
/// No candidate makes a no-op cycle and one candidate is applied directly;
/// neither touches interval or wait strategy.  Several candidates go by the
/// strategy: `Spread` divides the interval evenly among them, applies the
/// slice the current moment falls in, shortens the interval to one slice —
/// rounded up to whole seconds — and downgrades to a plain sleep; `Random`
/// applies a uniformly random candidate and changes nothing else.
pub fn plan_cycle(
    selected: &Vec<String>,
    strategy: GroupSelectionStrategy,
    now: &ClockTime,
    interval_seconds: u64,
) -> (p: CyclePlan)
    requires
        now.wf(),
        1 <= interval_seconds <= 86400,
        selected@.len() <= 0xffff_ffff,
    ensures
        selected@.len() == 0 ==> p == (CyclePlan {
            applied_index: None,
            interval_seconds,
            wait_strategy: WaitStrategy::Refresh,
            spread_overflow: false,
        }),
        selected@.len() == 1 ==> p == (CyclePlan {
            applied_index: Some(0usize),
            interval_seconds,
            wait_strategy: WaitStrategy::Refresh,
            spread_overflow: false,
        }),
        selected@.len() > 1 && strategy is Spread ==> {
            &&& p.applied_index == Some(
                spec_slice_index(
                    now.spec_seconds_into_hour(),
                    interval_seconds as int,
                    selected@.len() as int,
                ) as usize,
            )
            &&& p.interval_seconds == (interval_seconds as int + selected@.len() - 1) / (
                selected@.len() as int
            )
            &&& p.wait_strategy == WaitStrategy::Sleep
            &&& p.spread_overflow == (selected@.len() > interval_seconds as int / 60)
        },
        selected@.len() > 1 && strategy is Random ==> {
            &&& p.applied_index is Some
            &&& p.applied_index.unwrap() < selected@.len()
            &&& p.interval_seconds == interval_seconds
            &&& p.wait_strategy == WaitStrategy::Refresh
            &&& p.spread_overflow == false
        },
        p.applied_index is Some ==> p.applied_index.unwrap() < selected@.len(),
        1 <= p.interval_seconds <= interval_seconds,
{
    let total = selected.len();
    if total == 0 {
        CyclePlan {
            applied_index: None,
            interval_seconds,
            wait_strategy: WaitStrategy::Refresh,
            spread_overflow: false,
        }
    } else if total == 1 {
        CyclePlan {
            applied_index: Some(0),
            interval_seconds,
            wait_strategy: WaitStrategy::Refresh,
            spread_overflow: false,
        }
    } else {
        match strategy {
            GroupSelectionStrategy::Spread => {
                let seconds = now.seconds_into_hour();
                let idx = slice_index(seconds, interval_seconds, total);
                proof {
                    let i = interval_seconds as int;
                    let n = total as int;
                    assert(i * n == n * i) by (nonlinear_arith);
                    assert(i + n - 1 <= i * n) by (nonlinear_arith)
                        requires
                            1 <= i,
                            2 <= n,
                    ;
                    vstd::arithmetic::div_mod::lemma_div_is_ordered(i + n - 1, i * n, n);
                    vstd::arithmetic::div_mod::lemma_div_multiples_vanish(i, n);
                    vstd::arithmetic::div_mod::lemma_div_is_ordered(n, i + n - 1, n);
                    vstd::arithmetic::div_mod::lemma_div_by_self(n);
                }
                let slice_seconds = (interval_seconds + total as u64 - 1) / total as u64;
                CyclePlan {
                    applied_index: Some(idx),
                    interval_seconds: slice_seconds,
                    wait_strategy: WaitStrategy::Sleep,
                    spread_overflow: total as u64 > interval_seconds / 60,
                }
            },
            GroupSelectionStrategy::Random => {
                let idx = crate::wallpaper::random_below(total);
                CyclePlan {
                    applied_index: Some(idx),
                    interval_seconds,
                    wait_strategy: WaitStrategy::Refresh,
                    spread_overflow: false,
                }
            },
        }
    }
}

} // verus!
