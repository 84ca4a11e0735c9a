//! Frame pacing: how long to wait at the end of a tick to hold a target
//! cadence, given the time the tick's work has already consumed.

use vstd::prelude::*;

verus! {

/// The minimum wait, in time units. A zero or negative wait would be
/// rejected by the underlying wait primitive, so the pacer never asks
/// for less than this.
pub const MIN_SLEEP: u64 = 1;

/// Computes sleep deadlines that hold a fixed target tick duration.
///
/// This is advisory pacing: a tick that overran its target is not
/// compensated by shortening the next one.
pub struct RenderPacer {
    /// Target duration of one tick, in time units (e.g. nanoseconds).
    pub target: u64,
}

impl RenderPacer {
    /// A pacer for the given target tick duration.
    pub fn new(target: u64) -> (pacer: RenderPacer)
        ensures
            pacer.target == target,
    {
        RenderPacer { target }
    }

    /// How long to sleep at the end of a tick in which `work` time units
    /// were already spent: the remainder of the target, but never less
    /// than `MIN_SLEEP`.
    pub fn sleep_duration(&self, work: u64) -> (sleep: u64)
        ensures
            work < self.target ==> sleep == self.target - work,
            work >= self.target ==> sleep == MIN_SLEEP,
            sleep >= MIN_SLEEP,
    {
        if work < self.target {
            self.target - work
        } else {
            MIN_SLEEP
        }
    }
}

} // verus!
