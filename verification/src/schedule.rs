//! When the two loops run.

use vstd::prelude::*;
use crate::reaper::Span;

verus! {

/// Seconds between two cycles of the monitor.
pub const MONITOR_INTERVAL_SECS: u64 = 3600;

/// Seconds between two sweeps of the reaper when it runs as a daemon.
pub const SWEEP_INTERVAL_SECS: u64 = 3600;

/// Seconds after which a temporary file is stale.
pub const MAX_AGE_SECS: u64 = 3600;

/// The age beyond which the reaper deletes.
pub fn max_age() -> (age: Span)
    ensures
        age@ == MAX_AGE_SECS * 1_000_000_000,
{
    Span { secs: MAX_AGE_SECS, nanos: 0 }
}

/// What follows a sweep: the seconds to sleep before the next one, or `None`
/// where the reaper was asked for a single pass.
pub fn pause_after_sweep(daemon: bool) -> (pause: Option<u64>)
    ensures
        pause == if daemon {
            Some(SWEEP_INTERVAL_SECS)
        } else {
            None
        },
{
    if daemon {
        Some(SWEEP_INTERVAL_SECS)
    } else {
        None
    }
}

} // verus!
