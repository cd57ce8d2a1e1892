//! Capacity limits on the numeric inputs.
//!
//! All times are absolute UTC instants in whole seconds and all durations are
//! whole seconds.  The evaluator advances a clock value while it interleaves
//! waiting, working and traveling; the caps below bound how far that clock
//! can ever travel, which in turn lets every addition in the evaluator be
//! proved free of overflow.

use vstd::prelude::*;

verus! {

/// Seconds in one calendar day.
pub const SECONDS_PER_DAY: u64 = 86400;

/// Latest admissible instant in any input time window (about 36,000 years
/// past the epoch).
pub const MAX_WINDOW_TIME: u64 = 0x100_0000_0000;

/// Cap on the sum of all job durations plus all travel-duration entries of
/// one input (about 34 years of combined work and travel).
pub const MAX_TOTAL_DURATION: u64 = 0x4000_0000;

/// Cap on the number of locations.
pub const MAX_LOCATIONS: usize = 8192;

/// Cap on a single entry of the distance matrix.
pub const MAX_DISTANCE: u64 = 0x100_0000_0000;

/// The longest the evaluator ever waits in one step: at most seven days to
/// the next working day plus at most one day to the daily opening.
pub const MAX_WAIT_JUMP: u64 = 691200;

/// Fuel spent per second of remaining work when bounding the evaluator's
/// clock: two waiting jumps with two seconds of slack.
pub const FUEL_PER_SECOND: u64 = 1382402;

/// Every instant the evaluator's clock reaches stays below this bound.
pub open spec fn eval_time_cap() -> int {
    MAX_WINDOW_TIME + FUEL_PER_SECOND * (MAX_TOTAL_DURATION + 2 * MAX_LOCATIONS + 2)
}

/// A loose executable bound above `eval_time_cap`, usable in `requires`
/// clauses of the time arithmetic helpers.
pub const EVAL_TIME_BOUND: u64 = 0x20_0000_0000_0000;

/// The evaluator's clock cap fits well below `EVAL_TIME_BOUND`, which itself
/// leaves room in a `u64` for every addition the evaluator performs.
pub proof fn lemma_eval_time_cap_fits()
    ensures
        eval_time_cap() < EVAL_TIME_BOUND,
        eval_time_cap() > MAX_WINDOW_TIME,
{
    assert(eval_time_cap() < EVAL_TIME_BOUND && eval_time_cap() > MAX_WINDOW_TIME) by (nonlinear_arith);
}

} // verus!
