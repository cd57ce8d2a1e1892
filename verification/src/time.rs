//! The schedule evaluator: for a candidate route it synthesizes a timeline
//! of waiting, working and traveling that respects the per-location time
//! windows and the global operating hours, splitting a job across days only
//! when no single day can hold it, and accumulates the penalty totals.

pub use crate::time_input;
pub use crate::time_output;
pub use crate::time_windows;

use vstd::math::max;
use vstd::prelude::*;

use crate::limits::{
    eval_time_cap, lemma_eval_time_cap_fits, EVAL_TIME_BOUND, FUEL_PER_SECOND, MAX_TOTAL_DURATION,
    MAX_WAIT_JUMP, MAX_WINDOW_TIME,
};
use crate::operation_times::OperationTimes;
use crate::route::{is_permutation, Route};
use crate::sums::{lemma_picked_sum_le_total, lemma_sum_entry, picked_sum, to_ints};
use crate::time_input::{lemma_row_sums_nonneg, row_sums, TimeInput};
use crate::time_output::{Complete, Event, Incomplete, TimeOutput};
use crate::time_windows::{
    in_some_window, no_fitting_window, seq_lateness, TimeWindow,
};

verus! {

/// An interval lies inside the operating hours; with no hours configured
/// every interval does.
pub open spec fn o_covers(o: Option<OperationTimes>, w: TimeWindow) -> bool {
    match o {
        None => true,
        Some(ot) => ot.spec_covers(w),
    }
}

/// A work event lies inside the operating hours.
pub open spec fn event_within_hours(ti: TimeInput, e: Event) -> bool {
    match e {
        Event::Work(w, _) => o_covers(ti.operation_times, w),
        _ => true,
    }
}

/// A work event starts inside one of its location's windows, unless no
/// window ending after that start could hold the location's whole job in
/// one piece.
pub open spec fn event_placed(ti: TimeInput, e: Event) -> bool {
    match e {
        Event::Work(w, loc) => {
            &&& (loc as int) < ti.n()
            &&& {
                let ws = ti.time_windows@[loc as int].windows@;
                in_some_window(ws, w.start) || no_fitting_window(
                    ws,
                    w.start,
                    ti.job_durations@[loc as int],
                )
            }
        },
        _ => true,
    }
}

pub open spec fn event_ok(ti: TimeInput, e: Event) -> bool {
    event_within_hours(ti, e) && event_placed(ti, e)
}

/// Work seconds of the first `k` visits of the route.
pub open spec fn route_work(ti: TimeInput, s: Seq<usize>, k: int) -> int {
    picked_sum(to_ints(ti.job_durations@), s, k)
}

/// Travel seconds of the edge leaving position `p` of the cyclic route.
pub open spec fn edge_time(ti: TimeInput, s: Seq<usize>, p: int) -> int {
    ti.duration_matrix@[s[p] as int]@[s[(p + 1) % (s.len() as int)] as int] as int
}

/// Travel seconds of the first `k` edges of the cyclic route.
pub open spec fn route_travel(ti: TimeInput, s: Seq<usize>, k: int) -> int
    decreases k,
{
    if k <= 0 {
        0
    } else {
        route_travel(ti, s, k - 1) + edge_time(ti, s, k - 1)
    }
}

/// A route's work and travel seconds stay within the input's global budget:
/// the route visits each location at most once, so the job seconds it picks
/// are at most all job seconds, and each travel edge leaves a distinct row
/// of the duration matrix.
pub proof fn lemma_route_budget(ti: TimeInput, s: Seq<usize>, k: int)
    requires
        ti.wf(),
        is_permutation(s, ti.n()),
        0 <= k <= s.len(),
    ensures
        0 <= route_work(ti, s, k),
        0 <= route_travel(ti, s, k),
        route_work(ti, s, k) + route_travel(ti, s, k) <= MAX_TOTAL_DURATION,
{
    let jd = to_ints(ti.job_durations@);
    let rs = row_sums(ti.duration_matrix@);
    lemma_picked_sum_le_total(jd, s, k);
    lemma_row_sums_nonneg(ti.duration_matrix@);
    lemma_picked_sum_le_total(rs, s, k);
    lemma_travel_le_picked(ti, s, k);
}

/// Each edge is at most the total of its row, so the travel sum is at most
/// the picked row totals.
proof fn lemma_travel_le_picked(ti: TimeInput, s: Seq<usize>, k: int)
    requires
        ti.wf(),
        is_permutation(s, ti.n()),
        0 <= k <= s.len(),
    ensures
        0 <= route_travel(ti, s, k) <= picked_sum(row_sums(ti.duration_matrix@), s, k),
    decreases k,
{
    if k > 0 {
        lemma_travel_le_picked(ti, s, k - 1);
        let p = k - 1;
        let a = s[p] as int;
        let row = to_ints(ti.duration_matrix@[a]@);
        let b = s[(p + 1) % (s.len() as int)] as int;
        assert(0 <= (p + 1) % (s.len() as int) < s.len()) by {
            vstd::arithmetic::div_mod::lemma_mod_bound(p + 1, s.len() as int);
        }
        lemma_sum_entry(row, b);
        assert(row_sums(ti.duration_matrix@)[a] == crate::sums::sum_ints(row));
    }
}

/// What the generalized hours search returns: with no hours configured,
/// the whole need immediately.
pub open spec fn o_spec_find(
    o: Option<OperationTimes>,
    t: u64,
    need: u64,
    must_fit: bool,
) -> Option<TimeWindow> {
    match o {
        None => Some(TimeWindow { start: t, end: (t + need) as u64 }),
        Some(ot) => ot.spec_find(t, need, must_fit),
    }
}

/// The running totals and the full event log of an evaluation, as one
/// specification value.  The log here is always the full log; whether the
/// executable evaluator materializes it is a separate flag.
pub struct EvalReport {
    pub start_time: u64,
    pub end_time: u64,
    pub duration: u64,
    pub lateness: u64,
    pub working_time: u64,
    pub waiting_time: u64,
    pub traveling_time: u64,
    pub job_splits: u32,
    pub log: Seq<Event>,
}

/// A fresh report at the given start instant.
pub open spec fn rep_new(start_time: u64) -> EvalReport {
    EvalReport {
        start_time,
        end_time: start_time,
        duration: 0,
        lateness: 0,
        working_time: 0,
        waiting_time: 0,
        traveling_time: 0,
        job_splits: 0,
        log: Seq::empty(),
    }
}

/// Waits from the report's end to the given instant, when that is ahead.
pub open spec fn rep_wait(r: EvalReport, upto: u64) -> EvalReport {
    if upto > r.end_time {
        let d = upto - r.end_time;
        EvalReport {
            start_time: r.start_time,
            end_time: upto,
            duration: (r.duration + d) as u64,
            lateness: r.lateness,
            working_time: r.working_time,
            waiting_time: (r.waiting_time + d) as u64,
            traveling_time: r.traveling_time,
            job_splits: r.job_splits,
            log: r.log.push(Event::Wait(TimeWindow { start: r.end_time, end: upto })),
        }
    } else {
        r
    }
}

/// Waits until the interval begins, then works through it.
pub open spec fn rep_work(r: EvalReport, location: usize, w: TimeWindow) -> EvalReport {
    let r2 = rep_wait(r, w.start);
    let d = w.end - w.start;
    EvalReport {
        start_time: r2.start_time,
        end_time: w.end,
        duration: (r2.duration + d) as u64,
        lateness: r2.lateness,
        working_time: (r2.working_time + d) as u64,
        waiting_time: r2.waiting_time,
        traveling_time: r2.traveling_time,
        job_splits: r2.job_splits,
        log: r2.log.push(Event::Work(w, location)),
    }
}

/// Waits until the interval begins, then travels through it.
pub open spec fn rep_travel(r: EvalReport, w: TimeWindow) -> EvalReport {
    let r2 = rep_wait(r, w.start);
    let d = w.end - w.start;
    EvalReport {
        start_time: r2.start_time,
        end_time: w.end,
        duration: (r2.duration + d) as u64,
        lateness: r2.lateness,
        working_time: r2.working_time,
        waiting_time: r2.waiting_time,
        traveling_time: (r2.traveling_time + d) as u64,
        job_splits: r2.job_splits,
        log: r2.log.push(Event::Travel(w)),
    }
}

/// Counts one split.
pub open spec fn rep_split(r: EvalReport) -> EvalReport {
    EvalReport {
        start_time: r.start_time,
        end_time: r.end_time,
        duration: r.duration,
        lateness: r.lateness,
        working_time: r.working_time,
        waiting_time: r.waiting_time,
        traveling_time: r.traveling_time,
        job_splits: (r.job_splits + 1) as u32,
        log: r.log,
    }
}

/// Accrues lateness.
pub open spec fn rep_late(r: EvalReport, l: int) -> EvalReport {
    EvalReport {
        start_time: r.start_time,
        end_time: r.end_time,
        duration: r.duration,
        lateness: (r.lateness + l) as u64,
        working_time: r.working_time,
        waiting_time: r.waiting_time,
        traveling_time: r.traveling_time,
        job_splits: r.job_splits,
        log: r.log,
    }
}

/// The evaluator's state while one job is being worked off.
pub struct JobState {
    pub current: u64,
    pub remaining: u64,
    pub must_fit: bool,
    pub done: bool,
    pub rep: EvalReport,
}

/// One iteration of the job loop: query both searches at the current
/// instant; work the interval when they agree, retry from the later start
/// when they disagree, work their shared prefix when neither start moves,
/// work within the hours alone when the windows offer nothing, and flip to
/// split mode when the hours cannot hold the remainder whole.
#[verifier::opaque]
pub open spec fn job_step(ti: TimeInput, location: usize, st: JobState) -> JobState {
    let ws = ti.time_windows@[location as int].windows@;
    let maybe_tw = crate::time_windows::spec_find_window(ws, st.current, st.remaining, st.must_fit);
    let maybe_op = o_spec_find(ti.operation_times, st.current, st.remaining, st.must_fit);
    match (maybe_tw, maybe_op) {
        (Some(tw), Some(op)) => {
            if tw == op {
                let chunk = (tw.end - tw.start) as u64;
                let rem2 = (st.remaining - chunk) as u64;
                let rep = rep_work(st.rep, location, tw);
                JobState {
                    current: rep.end_time,
                    remaining: rem2,
                    must_fit: st.must_fit,
                    done: rem2 == 0,
                    rep,
                }
            } else {
                let next = if tw.start > op.start {
                    tw.start
                } else {
                    op.start
                };
                if next > st.current {
                    JobState {
                        current: next,
                        remaining: st.remaining,
                        must_fit: st.must_fit,
                        done: st.done,
                        rep: st.rep,
                    }
                } else {
                    let end_shared = if tw.end < op.end {
                        tw.end
                    } else {
                        op.end
                    };
                    let w = TimeWindow { start: st.current, end: end_shared };
                    let chunk = (end_shared - st.current) as u64;
                    let rem2 = (st.remaining - chunk) as u64;
                    let rep = rep_work(st.rep, location, w);
                    JobState {
                        current: rep.end_time,
                        remaining: rem2,
                        must_fit: st.must_fit,
                        done: rem2 == 0,
                        rep,
                    }
                }
            }
        },
        (None, Some(op)) => {
            let chunk = (op.end - op.start) as u64;
            let rem2 = (st.remaining - chunk) as u64;
            let rep = rep_work(st.rep, location, op);
            JobState {
                current: rep.end_time,
                remaining: rem2,
                must_fit: st.must_fit,
                done: rem2 == 0,
                rep,
            }
        },
        (_, None) => JobState {
            current: st.rep.end_time,
            remaining: st.remaining,
            must_fit: false,
            done: st.done,
            rep: rep_split(st.rep),
        },
    }
}

/// The job step when both searches offer the same interval: work it.
proof fn lemma_step_accept(ti: TimeInput, location: usize, st: JobState, tw: TimeWindow)
    requires
        crate::time_windows::spec_find_window(
            ti.time_windows@[location as int].windows@,
            st.current,
            st.remaining,
            st.must_fit,
        ) == Some(tw),
        o_spec_find(ti.operation_times, st.current, st.remaining, st.must_fit) == Some(tw),
    ensures
        job_step(ti, location, st) == (JobState {
            current: rep_work(st.rep, location, tw).end_time,
            remaining: (st.remaining - (tw.end - tw.start) as u64) as u64,
            must_fit: st.must_fit,
            done: (st.remaining - (tw.end - tw.start) as u64) as u64 == 0,
            rep: rep_work(st.rep, location, tw),
        }),
{
    reveal(job_step);
}

/// The job step when the offers differ and the later start is ahead:
/// retry from there.
proof fn lemma_step_retry(
    ti: TimeInput,
    location: usize,
    st: JobState,
    tw: TimeWindow,
    op: TimeWindow,
)
    requires
        crate::time_windows::spec_find_window(
            ti.time_windows@[location as int].windows@,
            st.current,
            st.remaining,
            st.must_fit,
        ) == Some(tw),
        o_spec_find(ti.operation_times, st.current, st.remaining, st.must_fit) == Some(op),
        tw != op,
        (if tw.start > op.start {
            tw.start
        } else {
            op.start
        }) > st.current,
    ensures
        job_step(ti, location, st) == (JobState {
            current: if tw.start > op.start {
                tw.start
            } else {
                op.start
            },
            remaining: st.remaining,
            must_fit: st.must_fit,
            done: st.done,
            rep: st.rep,
        }),
{
    reveal(job_step);
}

/// The job step when the offers differ but both begin now: work their
/// shared prefix.
proof fn lemma_step_prefix(
    ti: TimeInput,
    location: usize,
    st: JobState,
    tw: TimeWindow,
    op: TimeWindow,
)
    requires
        crate::time_windows::spec_find_window(
            ti.time_windows@[location as int].windows@,
            st.current,
            st.remaining,
            st.must_fit,
        ) == Some(tw),
        o_spec_find(ti.operation_times, st.current, st.remaining, st.must_fit) == Some(op),
        tw != op,
        (if tw.start > op.start {
            tw.start
        } else {
            op.start
        }) <= st.current,
    ensures
        job_step(ti, location, st) == ({
            let end_shared = if tw.end < op.end {
                tw.end
            } else {
                op.end
            };
            let w = TimeWindow { start: st.current, end: end_shared };
            JobState {
                current: rep_work(st.rep, location, w).end_time,
                remaining: (st.remaining - (end_shared - st.current) as u64) as u64,
                must_fit: st.must_fit,
                done: (st.remaining - (end_shared - st.current) as u64) as u64 == 0,
                rep: rep_work(st.rep, location, w),
            }
        }),
{
    reveal(job_step);
}

/// The job step when no window offers anything but the hours do: work
/// within the hours alone.
proof fn lemma_step_hours(ti: TimeInput, location: usize, st: JobState, op: TimeWindow)
    requires
        crate::time_windows::spec_find_window(
            ti.time_windows@[location as int].windows@,
            st.current,
            st.remaining,
            st.must_fit,
        ) is None,
        o_spec_find(ti.operation_times, st.current, st.remaining, st.must_fit) == Some(op),
    ensures
        job_step(ti, location, st) == (JobState {
            current: rep_work(st.rep, location, op).end_time,
            remaining: (st.remaining - (op.end - op.start) as u64) as u64,
            must_fit: st.must_fit,
            done: (st.remaining - (op.end - op.start) as u64) as u64 == 0,
            rep: rep_work(st.rep, location, op),
        }),
{
    reveal(job_step);
}

/// The job step when the hours cannot hold the remainder whole: flip to
/// split mode.
proof fn lemma_step_split(ti: TimeInput, location: usize, st: JobState)
    requires
        o_spec_find(ti.operation_times, st.current, st.remaining, st.must_fit) is None,
    ensures
        job_step(ti, location, st) == (JobState {
            current: st.rep.end_time,
            remaining: st.remaining,
            must_fit: false,
            done: st.done,
            rep: rep_split(st.rep),
        }),
{
    reveal(job_step);
}

/// Iterating the job step until the job is done or the fuel runs out.
pub open spec fn iter_job(ti: TimeInput, location: usize, st: JobState, fuel: nat) -> JobState
    decreases fuel,
{
    if fuel == 0 || st.done {
        st
    } else {
        iter_job(ti, location, job_step(ti, location, st), (fuel - 1) as nat)
    }
}

/// A non-negative integer as a natural number.
pub open spec fn nat_of(x: int) -> nat {
    if x >= 0 {
        x as nat
    } else {
        0
    }
}

/// Every instant the job loop can reach stays below this bound.
pub open spec fn job_cap(st: JobState) -> int {
    vstd::math::max(st.rep.end_time as int, MAX_WINDOW_TIME as int) + FUEL_PER_SECOND * (
    st.remaining + 2)
}

/// An upper bound on the job loop's remaining iterations: a lexicographic
/// rank of the loop's termination measure.
pub open spec fn job_size(st: JobState, cap: int) -> int {
    let a = (if st.must_fit {
        1int
    } else {
        0int
    }) * (st.remaining + 1) + st.remaining;
    let run = if st.done {
        0int
    } else {
        1int
    };
    (a * (cap + 2) + (cap - st.current)) * 2 + run
}

/// Each job-loop transition strictly shrinks the rank.
proof fn lemma_job_size_step(st: JobState, st2: JobState, cap: int)
    requires
        0 <= st.current <= cap,
        0 <= st2.current <= cap,
        !st.done,
        ({
            ||| (st2.must_fit == st.must_fit && st2.remaining == st.remaining && st2.current
                > st.current && st2.done == st.done)
            ||| (st2.must_fit == st.must_fit && st2.remaining < st.remaining)
            ||| (st.must_fit && !st2.must_fit && st2.remaining == st.remaining)
            ||| (st2.done && st2.remaining == st.remaining && st2.must_fit == st.must_fit
                && st2.current >= st.current)
        }),
    ensures
        job_size(st2, cap) <= job_size(st, cap) - 1,
{
    let a1 = (if st.must_fit {
        1int
    } else {
        0int
    }) * (st.remaining + 1) + st.remaining;
    let a2 = (if st2.must_fit {
        1int
    } else {
        0int
    }) * (st2.remaining + 1) + st2.remaining;
    if st2.must_fit == st.must_fit && st2.remaining == st.remaining && st2.current > st.current
        && st2.done == st.done {
        assert(a1 == a2);
    } else if (st2.must_fit == st.must_fit && st2.remaining < st.remaining) || (st.must_fit
        && !st2.must_fit && st2.remaining == st.remaining) {
        assert(a2 <= a1 - 1);
        assert(a2 * (cap + 2) <= (a1 - 1) * (cap + 2)) by (nonlinear_arith)
            requires
                a2 <= a1 - 1,
                cap + 2 > 0,
        ;
        assert((a1 - 1) * (cap + 2) == a1 * (cap + 2) - (cap + 2)) by (nonlinear_arith);
    } else {
        assert(a1 == a2);
    }
}

/// The whole job loop as a function of its entry state.
pub open spec fn spec_run_job(ti: TimeInput, location: usize, st: JobState) -> JobState {
    iter_job(ti, location, st, nat_of(job_size(st, job_cap(st)) + 1))
}

/// Working one location's job off completely, then accruing the lateness
/// of the schedule's end against the location's windows.
pub open spec fn spec_after_job(
    ti: TimeInput,
    location: usize,
    rep: EvalReport,
    need: u64,
) -> EvalReport {
    let st0 = JobState {
        current: rep.end_time,
        remaining: need,
        must_fit: true,
        done: false,
        rep,
    };
    let fin = spec_run_job(ti, location, st0);
    rep_late(
        fin.rep,
        seq_lateness(ti.time_windows@[location as int].windows@, fin.rep.end_time),
    )
}

/// The travel loop: serve the remaining leg from the hours' next offers.
pub open spec fn iter_travel(
    o: Option<OperationTimes>,
    rep: EvalReport,
    remaining: u64,
    fuel: nat,
) -> EvalReport
    decreases fuel,
{
    if fuel == 0 || remaining == 0 {
        rep
    } else {
        match o_spec_find(o, rep.end_time, remaining, false) {
            Some(op) => iter_travel(
                o,
                rep_travel(rep, op),
                (remaining - (op.end - op.start)) as u64,
                (fuel - 1) as nat,
            ),
            None => rep,
        }
    }
}

/// Traveling one edge of the route.
pub open spec fn spec_after_travel(ti: TimeInput, rep: EvalReport, a: usize, b: usize) -> EvalReport {
    let e = ti.duration_matrix@[a as int]@[b as int];
    iter_travel(ti.operation_times, rep, e, (e + 1) as nat)
}

/// The whole evaluation from route position `i` on.
pub open spec fn spec_eval_from(ti: TimeInput, s: Seq<usize>, i: int, rep: EvalReport) -> EvalReport
    decreases s.len() - i when 0 <= i <= s.len()
{
    if i >= s.len() {
        rep
    } else {
        let location = s[i];
        let after_job = spec_after_job(ti, location, rep, ti.job_durations@[location as int]);
        let nxt = s[(i + 1) % (s.len() as int)];
        spec_eval_from(ti, s, i + 1, spec_after_travel(ti, after_job, location, nxt))
    }
}

/// The evaluator's result as a function of the inputs and the route: the
/// schedule starts at the first location's earliest opening and walks the
/// whole tour.
#[verifier::opaque]
pub open spec fn spec_evaluate(ti: TimeInput, s: Seq<usize>) -> EvalReport {
    spec_eval_from(ti, s, 0, rep_new(ti.time_windows@[s[0] as int].windows@[0].start))
}

/// The frozen totals equal the specified report's, and the event log is
/// the specified log exactly when it was asked for.
pub open spec fn report_agrees(rep: EvalReport, r: TimeOutput<Complete>, build_schedule: bool) -> bool {
    &&& r.start_time == rep.start_time
    &&& r.end_time == rep.end_time
    &&& r.duration == rep.duration
    &&& r.lateness == rep.lateness
    &&& r.working_time == rep.working_time
    &&& r.waiting_time == rep.waiting_time
    &&& r.traveling_time == rep.traveling_time
    &&& r.job_splits == rep.job_splits
    &&& (build_schedule ==> r.schedule@ == rep.log)
}

/// The running totals equal the specified report's, and the event log is
/// the specified log exactly when it is being kept.
pub open spec fn out_matches(rep: EvalReport, out: TimeOutput<Incomplete>, build_schedule: bool) -> bool {
    &&& out.start_time == rep.start_time
    &&& out.end_time == rep.end_time
    &&& out.duration == rep.duration
    &&& out.lateness == rep.lateness
    &&& out.working_time == rep.working_time
    &&& out.waiting_time == rep.waiting_time
    &&& out.traveling_time == rep.traveling_time
    &&& out.job_splits == rep.job_splits
    &&& (build_schedule ==> out.schedule@ == rep.log)
}

/// Finds the earliest interval the operating hours offer, treating absent
/// hours as always open.
fn op_find(
    o: &Option<OperationTimes>,
    current_time: u64,
    job_duration: u64,
    must_fit: bool,
) -> (r: Option<TimeWindow>)
    requires
        match o {
            Some(ot) => ot.wf(),
            None => true,
        },
        current_time <= EVAL_TIME_BOUND,
        job_duration <= MAX_TOTAL_DURATION,
    ensures
        r == o_spec_find(*o, current_time, job_duration, must_fit),
        r matches Some(w) ==> {
            &&& w.wf()
            &&& o_covers(*o, w)
            &&& w.start >= current_time
            &&& w.start <= current_time + MAX_WAIT_JUMP
            &&& w.spec_duration() <= job_duration
            &&& (job_duration > 0 ==> w.end > w.start)
            &&& (must_fit ==> w.spec_duration() == job_duration)
        },
        r is None ==> must_fit,
        r is None ==> match o {
            Some(ot) => job_duration > ot.daily_end - ot.daily_start,
            None => false,
        },
{
    match o {
        None => Some(TimeWindow::new(current_time, current_time + job_duration)),
        Some(ot) => ot.find_next_fitting_time(current_time, job_duration, must_fit),
    }
}

/// Walks one route through the time constraints, accumulating the totals.
struct WorkingTimePenalizer<'a> {
    time_input: &'a TimeInput,
    route: &'a Route,
    time_output: TimeOutput<Incomplete>,
    build_schedule: bool,
}

impl<'a> WorkingTimePenalizer<'a> {
    spec fn inv(self) -> bool {
        &&& self.time_input.wf()
        &&& is_permutation(self.route.sequence@, self.time_input.n())
        &&& self.time_output.wf()
        &&& (self.build_schedule ==> self.time_output.log_complete())
        &&& (!self.build_schedule ==> self.time_output.schedule@.len() == 0)
        &&& forall|j: int|
            0 <= j < self.time_output.schedule@.len() ==> event_ok(
                *self.time_input,
                #[trigger] self.time_output.schedule@[j],
            )
    }

    fn new(
        time_input: &'a TimeInput,
        route: &'a Route,
        start_time: u64,
        build_schedule: bool,
    ) -> (r: WorkingTimePenalizer<'a>)
        requires
            time_input.wf(),
            is_permutation(route.sequence@, time_input.n()),
        ensures
            r.inv(),
            r.time_input == time_input,
            r.route == route,
            r.build_schedule == build_schedule,
            r.time_output.start_time == start_time,
            r.time_output.end_time == start_time,
            r.time_output.duration == 0,
            r.time_output.lateness == 0,
            r.time_output.working_time == 0,
            r.time_output.waiting_time == 0,
            r.time_output.traveling_time == 0,
            r.time_output.job_splits == 0,
            r.time_output.schedule@.len() == 0,
    {
        WorkingTimePenalizer {
            time_input,
            route,
            time_output: TimeOutput::new(start_time),
            build_schedule,
        }
    }

    /// Waits at the schedule's end for the given duration, when positive.
    fn add_waiting(&mut self, duration: u64)
        requires
            old(self).inv(),
            old(self).time_output.end_time + duration <= u64::MAX,
        ensures
            final(self).inv(),
            final(self).time_input == old(self).time_input,
            final(self).route == old(self).route,
            final(self).build_schedule == old(self).build_schedule,
            final(self).time_output.end_time == old(self).time_output.end_time + duration,
            final(self).time_output.waiting_time == old(self).time_output.waiting_time + duration,
            final(self).time_output.working_time == old(self).time_output.working_time,
            final(self).time_output.traveling_time == old(self).time_output.traveling_time,
            final(self).time_output.lateness == old(self).time_output.lateness,
            final(self).time_output.job_splits == old(self).time_output.job_splits,
            final(self).time_output.start_time == old(self).time_output.start_time,
            final(self).time_output.schedule@ == if old(self).build_schedule && duration > 0 {
                old(self).time_output.schedule@.push(
                    Event::Wait(
                        TimeWindow {
                            start: old(self).time_output.end_time,
                            end: (old(self).time_output.end_time + duration) as u64,
                        },
                    ),
                )
            } else {
                old(self).time_output.schedule@
            },
    {
        if duration > 0 {
            let end = self.time_output.end_time;
            let tw = TimeWindow::new(end, end + duration);
            let ghost prev = self.time_output.schedule@;
            let build = self.build_schedule;
            self.time_output.add_waiting(tw, build);
            proof {
                assert forall|j: int|
                    0 <= j < self.time_output.schedule@.len() implies event_ok(
                    *self.time_input,
                    #[trigger] self.time_output.schedule@[j],
                ) by {
                    if j < prev.len() {
                        assert(prev.push(Event::Wait(tw))[j] == prev[j]);
                    } else {
                        assert(prev.push(Event::Wait(tw))[j] == Event::Wait(tw));
                    }
                }
            }
        }
    }

    /// Waits until the interval begins, then works through it.
    fn add_job(&mut self, location: usize, time_window: TimeWindow)
        requires
            old(self).inv(),
            time_window.wf(),
            time_window.start >= old(self).time_output.end_time,
            event_ok(*old(self).time_input, Event::Work(time_window, location)),
        ensures
            final(self).inv(),
            final(self).time_input == old(self).time_input,
            final(self).route == old(self).route,
            final(self).build_schedule == old(self).build_schedule,
            final(self).time_output.end_time == time_window.end,
            final(self).time_output.working_time == old(self).time_output.working_time
                + time_window.spec_duration(),
            final(self).time_output.waiting_time == old(self).time_output.waiting_time + (
            time_window.start - old(self).time_output.end_time),
            final(self).time_output.traveling_time == old(self).time_output.traveling_time,
            final(self).time_output.lateness == old(self).time_output.lateness,
            final(self).time_output.job_splits == old(self).time_output.job_splits,
            final(self).time_output.start_time == old(self).time_output.start_time,
            forall|rep: EvalReport|
                out_matches(rep, old(self).time_output, old(self).build_schedule)
                    ==> out_matches(
                    #[trigger] rep_work(rep, location, time_window),
                    final(self).time_output,
                    old(self).build_schedule,
                ),
    {
        let gap = time_window.start - self.time_output.end_time;
        self.add_waiting(gap);
        let ghost prev = self.time_output.schedule@;
        let build = self.build_schedule;
        self.time_output.add_working(location, time_window, build);
        proof {
            let e = Event::Work(time_window, location);
            assert forall|j: int|
                0 <= j < self.time_output.schedule@.len() implies event_ok(
                *self.time_input,
                #[trigger] self.time_output.schedule@[j],
            ) by {
                if j < prev.len() {
                    assert(prev.push(e)[j] == prev[j]);
                } else {
                    assert(prev.push(e)[j] == e);
                }
            }
        }
    }

    /// Waits until the interval begins, then travels through it.
    fn add_travel(&mut self, time_window: TimeWindow)
        requires
            old(self).inv(),
            time_window.wf(),
            time_window.start >= old(self).time_output.end_time,
        ensures
            final(self).inv(),
            final(self).time_input == old(self).time_input,
            final(self).route == old(self).route,
            final(self).build_schedule == old(self).build_schedule,
            final(self).time_output.end_time == time_window.end,
            final(self).time_output.traveling_time == old(self).time_output.traveling_time
                + time_window.spec_duration(),
            final(self).time_output.waiting_time == old(self).time_output.waiting_time + (
            time_window.start - old(self).time_output.end_time),
            final(self).time_output.working_time == old(self).time_output.working_time,
            final(self).time_output.lateness == old(self).time_output.lateness,
            final(self).time_output.job_splits == old(self).time_output.job_splits,
            final(self).time_output.start_time == old(self).time_output.start_time,
            forall|rep: EvalReport|
                out_matches(rep, old(self).time_output, old(self).build_schedule)
                    ==> out_matches(
                    #[trigger] rep_travel(rep, time_window),
                    final(self).time_output,
                    old(self).build_schedule,
                ),
    {
        let gap = time_window.start - self.time_output.end_time;
        self.add_waiting(gap);
        let ghost prev = self.time_output.schedule@;
        let build = self.build_schedule;
        self.time_output.add_traveling(time_window, build);
        proof {
            let e = Event::Travel(time_window);
            assert forall|j: int|
                0 <= j < self.time_output.schedule@.len() implies event_ok(
                *self.time_input,
                #[trigger] self.time_output.schedule@[j],
            ) by {
                if j < prev.len() {
                    assert(prev.push(e)[j] == prev[j]);
                } else {
                    assert(prev.push(e)[j] == e);
                }
            }
        }
    }

    /// Counts one more job split.
    fn add_split(&mut self)
        requires
            old(self).inv(),
            old(self).time_output.job_splits < u32::MAX,
        ensures
            final(self).inv(),
            final(self).time_input == old(self).time_input,
            final(self).route == old(self).route,
            final(self).build_schedule == old(self).build_schedule,
            final(self).time_output.job_splits == old(self).time_output.job_splits + 1,
            final(self).time_output.end_time == old(self).time_output.end_time,
            final(self).time_output.working_time == old(self).time_output.working_time,
            final(self).time_output.waiting_time == old(self).time_output.waiting_time,
            final(self).time_output.traveling_time == old(self).time_output.traveling_time,
            final(self).time_output.lateness == old(self).time_output.lateness,
            final(self).time_output.start_time == old(self).time_output.start_time,
            final(self).time_output.schedule == old(self).time_output.schedule,
    {
        self.time_output.add_split();
    }

    /// Accrues the lateness of the schedule's end against the location's
    /// windows.
    fn add_lateness(&mut self, location: usize)
        requires
            old(self).inv(),
            location < old(self).time_input.n(),
            old(self).time_output.lateness + old(self).time_output.end_time <= u64::MAX,
        ensures
            final(self).inv(),
            final(self).time_input == old(self).time_input,
            final(self).route == old(self).route,
            final(self).build_schedule == old(self).build_schedule,
            final(self).time_output.lateness == old(self).time_output.lateness + seq_lateness(
                old(self).time_input.time_windows@[location as int].windows@,
                old(self).time_output.end_time,
            ),
            final(self).time_output.end_time == old(self).time_output.end_time,
            final(self).time_output.working_time == old(self).time_output.working_time,
            final(self).time_output.waiting_time == old(self).time_output.waiting_time,
            final(self).time_output.traveling_time == old(self).time_output.traveling_time,
            final(self).time_output.job_splits == old(self).time_output.job_splits,
            final(self).time_output.start_time == old(self).time_output.start_time,
            final(self).time_output.schedule == old(self).time_output.schedule,
    {
        let lateness = self.time_input.time_windows[location].lateness(self.time_output.end_time);
        self.time_output.add_lateness(lateness);
    }

    /// Works off one location's job: searches for the earliest instants that
    /// both the location's windows and the operating hours accept, works the
    /// job there in one piece when possible, and otherwise splits it across
    /// operating segments, counting the split.
    #[verifier::rlimit(100)]
    #[verifier::spinoff_prover]
    fn execute_job(&mut self, i: usize, Ghost(rep0): Ghost<EvalReport>)
        requires
            old(self).inv(),
            i < old(self).time_input.n(),
            old(self).time_output.end_time <= eval_time_cap(),
            old(self).time_output.job_splits < u32::MAX,
            old(self).time_output.lateness + 2 * EVAL_TIME_BOUND <= u64::MAX,
            out_matches(rep0, old(self).time_output, old(self).build_schedule),
        ensures
            out_matches(
                spec_after_job(
                    *old(self).time_input,
                    old(self).route.sequence@[i as int],
                    rep0,
                    old(self).time_input.job_durations@[old(self).route.sequence@[i as int] as int],
                ),
                final(self).time_output,
                old(self).build_schedule,
            ),
            final(self).time_output.lateness == old(self).time_output.lateness + seq_lateness(
                old(self).time_input.time_windows@[old(self).route.sequence@[i as int] as int].windows@,
                final(self).time_output.end_time,
            ),
            final(self).time_output.waiting_time >= old(self).time_output.waiting_time,
            final(self).time_output.schedule@.len() >= old(self).time_output.schedule@.len(),
            final(self).time_output.schedule@.take(old(self).time_output.schedule@.len() as int)
                == old(self).time_output.schedule@,
            final(self).inv(),
            final(self).time_input == old(self).time_input,
            final(self).route == old(self).route,
            final(self).build_schedule == old(self).build_schedule,
            final(self).time_output.start_time == old(self).time_output.start_time,
            final(self).time_output.working_time == old(self).time_output.working_time
                + old(self).time_input.job_durations@[old(self).route.sequence@[i as int] as int],
            final(self).time_output.traveling_time == old(self).time_output.traveling_time,
            old(self).time_output.job_splits <= final(self).time_output.job_splits
                <= old(self).time_output.job_splits + 1,
            final(self).time_output.lateness >= old(self).time_output.lateness,
            final(self).time_output.lateness
                <= old(self).time_output.lateness + final(self).time_output.end_time,
            final(self).time_output.end_time >= old(self).time_output.end_time,
            final(self).time_output.end_time <= max(
                old(self).time_output.end_time as int,
                MAX_WINDOW_TIME as int,
            ) + FUEL_PER_SECOND * (2
                + old(self).time_input.job_durations@[old(self).route.sequence@[i as int] as int]),
    {
        let ghost init = *self;
        let location = self.route.sequence[i];
        let mut job_duration = self.time_input.job_durations[location];
        proof {
            self.time_input.lemma_job_bound(location as int);
            lemma_eval_time_cap_fits();
        }
        let ghost d0 = job_duration;
        let mut current_time = self.time_output.end_time;
        let mut job_completed = false;
        let mut must_fit = true;
        let ghost e0: int = max(
            init.time_output.end_time as int,
            MAX_WINDOW_TIME as int,
        ) + FUEL_PER_SECOND;
        let ghost ws = self.time_input.time_windows@[location as int].windows@;
        let ghost ti = *self.time_input;
        let ghost st0 = JobState {
            current: rep0.end_time,
            remaining: d0,
            must_fit: true,
            done: false,
            rep: rep0,
        };
        let ghost cap0 = job_cap(st0);
        let ghost mut st = st0;
        let ghost mut fuel_left: int = job_size(st0, cap0) + 1;
        while !job_completed
            invariant
                ti == *self.time_input,
                st.current == current_time,
                st.remaining == job_duration,
                st.must_fit == must_fit,
                st.done == job_completed,
                out_matches(st.rep, self.time_output, init.build_schedule),
                st0 == (JobState {
                    current: rep0.end_time,
                    remaining: d0,
                    must_fit: true,
                    done: false,
                    rep: rep0,
                }),
                rep0.end_time == init.time_output.end_time,
                cap0 == job_cap(st0),
                cap0 == e0 + FUEL_PER_SECOND * (d0 + 1),
                iter_job(ti, location, st0, nat_of(job_size(st0, cap0) + 1)) == iter_job(
                    ti,
                    location,
                    st,
                    nat_of(fuel_left),
                ),
                job_completed || fuel_left >= 1 + job_size(st, cap0),
                fuel_left >= 0,
                self.time_output.waiting_time >= init.time_output.waiting_time,
                self.time_output.schedule@.len() >= init.time_output.schedule@.len(),
                self.time_output.schedule@.take(init.time_output.schedule@.len() as int)
                    == init.time_output.schedule@,
                self.inv(),
                self.time_input == init.time_input,
                self.route == init.route,
                self.build_schedule == init.build_schedule,
                i < self.time_input.n(),
                location == self.route.sequence@[i as int],
                (location as int) < self.time_input.n(),
                ws == self.time_input.time_windows@[location as int].windows@,
                d0 == self.time_input.job_durations@[location as int],
                d0 <= MAX_TOTAL_DURATION,
                job_duration <= d0,
                self.time_output.start_time == init.time_output.start_time,
                self.time_output.working_time == init.time_output.working_time + d0
                    - job_duration,
                self.time_output.traveling_time == init.time_output.traveling_time,
                self.time_output.lateness == init.time_output.lateness,
                self.time_output.job_splits == init.time_output.job_splits + (if must_fit {
                    0int
                } else {
                    1int
                }),
                init.time_output.job_splits < u32::MAX,
                init.time_output.end_time <= eval_time_cap(),
                init.time_output.lateness + 2 * EVAL_TIME_BOUND <= u64::MAX,
                e0 == max(init.time_output.end_time as int, MAX_WINDOW_TIME as int)
                    + FUEL_PER_SECOND,
                self.time_output.end_time >= init.time_output.end_time,
                self.time_output.end_time <= e0 + FUEL_PER_SECOND * (d0 - job_duration) + (
                if job_completed {
                    FUEL_PER_SECOND as int
                } else {
                    0int
                }),
                current_time >= self.time_output.end_time,
                current_time <= max(
                    self.time_output.end_time as int,
                    MAX_WINDOW_TIME + MAX_WAIT_JUMP,
                ),
                job_completed ==> job_duration == 0,
                !must_fit ==> (job_completed || job_duration >= 1),
            decreases
                (if must_fit { 1int } else { 0int }),
                job_duration,
                e0 + FUEL_PER_SECOND * (d0 + 1) - current_time,
                (if job_completed { 0int } else { 1int }),
        {
            proof {
                assert(current_time <= EVAL_TIME_BOUND) by {
                    assert(self.time_output.end_time <= e0 + FUEL_PER_SECOND * (d0 + 1));
                    assert(e0 <= eval_time_cap() + FUEL_PER_SECOND + MAX_WINDOW_TIME);
                    assert(FUEL_PER_SECOND * (d0 + 1) <= FUEL_PER_SECOND * (
                    MAX_TOTAL_DURATION + 1)) by (nonlinear_arith)
                        requires
                            d0 <= MAX_TOTAL_DURATION,
                    ;
                }
            }
            let maybe_tw = self.time_input.time_windows[location].find_next_fitting_time(
                current_time,
                job_duration,
                must_fit,
            );
            let maybe_op = op_find(
                &self.time_input.operation_times,
                current_time,
                job_duration,
                must_fit,
            );
            match (maybe_tw, maybe_op) {
                (Some(next_time_tw), Some(next_time_op)) => {
                    if next_time_tw == next_time_op {
                        // Both constraints accept the same interval: work it.
                        let chunk = next_time_tw.end - next_time_tw.start;
                        proof {
                            assert(event_ok(
                                *self.time_input,
                                Event::Work(next_time_tw, location),
                            )) by {
                                let k = choose|k: int|
                                    {
                                        &&& 0 <= k < ws.len()
                                        &&& #[trigger] crate::time_windows::window_candidate(
                                            ws,
                                            current_time,
                                            job_duration,
                                            must_fit,
                                            k,
                                        )
                                        &&& ws[k].start <= next_time_tw.start <= ws[k].end
                                    };
                                assert(in_some_window(ws, next_time_tw.start));
                            }
                        }
                        let ghost st_pre = st;
                        let ghost fuel_pre = fuel_left;
                        job_duration -= chunk;
                        self.add_job(location, next_time_tw);
                        if job_duration == 0 {
                            job_completed = true;
                        }
                        current_time = self.time_output.end_time;
                        proof {
                            lemma_step_accept(ti, location, st_pre, next_time_tw);
                            st = job_step(ti, location, st_pre);
                            fuel_left = fuel_pre - 1;
                            assert(st.rep == rep_work(st_pre.rep, location, next_time_tw));
                            assert(st.current == current_time && st.remaining == job_duration
                                && st.must_fit == must_fit && st.done == job_completed);
                            if chunk >= 1 {
                                lemma_job_size_step(st_pre, st, cap0);
                            } else {
                                assert(st.done);
                                lemma_job_size_step(st_pre, st, cap0);
                            }
                            assert(iter_job(ti, location, st_pre, nat_of(fuel_pre)) == iter_job(
                                ti,
                                location,
                                st,
                                nat_of(fuel_left),
                            ));
                            assert(self.time_output.schedule@.take(
                                init.time_output.schedule@.len() as int,
                            ) =~= init.time_output.schedule@);
                        }
                    } else {
                        let next = if next_time_tw.start > next_time_op.start {
                            next_time_tw.start
                        } else {
                            next_time_op.start
                        };
                        if next > current_time {
                            // The two offers disagree: retry from the later
                            // of their starts.
                            proof {
                                assert(next_time_tw.start <= MAX_WINDOW_TIME) by {
                                    let k = choose|k: int|
                                        {
                                            &&& 0 <= k < ws.len()
                                            &&& #[trigger] crate::time_windows::window_candidate(
                                                ws,
                                                current_time,
                                                job_duration,
                                                must_fit,
                                                k,
                                            )
                                            &&& ws[k].start <= next_time_tw.start <= ws[k].end
                                        };
                                    assert(ws[k].end <= MAX_WINDOW_TIME);
                                }
                            }
                            let ghost st_pre = st;
                            let ghost fuel_pre = fuel_left;
                            current_time = next;
                            proof {
                                lemma_step_retry(
                                    ti,
                                    location,
                                    st_pre,
                                    next_time_tw,
                                    next_time_op,
                                );
                                st = job_step(ti, location, st_pre);
                                fuel_left = fuel_pre - 1;
                                assert(st.current == current_time && st.remaining == job_duration
                                    && st.must_fit == must_fit && st.done == job_completed
                                    && st.rep == st_pre.rep);
                                lemma_job_size_step(st_pre, st, cap0);
                                assert(iter_job(ti, location, st_pre, nat_of(fuel_pre))
                                    == iter_job(ti, location, st, nat_of(fuel_left)));
                            }
                        } else {
                            // Both offers begin now but end differently:
                            // a retry from the same instant would make no
                            // progress, so work their shared prefix, which
                            // lies inside both constraints.
                            proof {
                                if must_fit {
                                    assert(next_time_tw.start == current_time);
                                    assert(next_time_op.start == current_time);
                                    assert(next_time_tw.spec_duration() == job_duration);
                                    assert(next_time_op.spec_duration() == job_duration);
                                    assert(next_time_tw == next_time_op);
                                    assert(false);
                                }
                            }
                            let end_shared = if next_time_tw.end < next_time_op.end {
                                next_time_tw.end
                            } else {
                                next_time_op.end
                            };
                            let w = TimeWindow::new(current_time, end_shared);
                            let chunk = end_shared - current_time;
                            proof {
                                let k = choose|k: int|
                                    {
                                        &&& 0 <= k < ws.len()
                                        &&& #[trigger] crate::time_windows::window_candidate(
                                            ws,
                                            current_time,
                                            job_duration,
                                            must_fit,
                                            k,
                                        )
                                        &&& ws[k].start <= next_time_tw.start <= ws[k].end
                                        &&& next_time_tw.start == crate::time_windows::offered_start(
                                            ws,
                                            current_time,
                                            k,
                                        )
                                        &&& next_time_tw.end == next_time_tw.start
                                            + crate::time_windows::offered_len(
                                            ws,
                                            job_duration,
                                            must_fit,
                                            k,
                                        )
                                    };
                                assert(next_time_tw.start == current_time);
                                assert(in_some_window(ws, w.start));
                                assert(ws[k].end > current_time);
                                assert(ws[k].spec_duration() >= 1);
                                assert(next_time_tw.end >= current_time + 1);
                                assert(next_time_op.end >= current_time + 1);
                                assert(chunk >= 1);
                                assert(chunk <= next_time_tw.spec_duration());
                                assert(o_covers(self.time_input.operation_times, w)) by {
                                    match self.time_input.operation_times {
                                        Some(ot) => {
                                            assert(ot.spec_covers(next_time_op));
                                            assert(w.start == next_time_op.start);
                                            assert(w.end <= next_time_op.end);
                                        },
                                        None => {},
                                    }
                                }
                            }
                            let ghost st_pre = st;
                            let ghost fuel_pre = fuel_left;
                            job_duration -= chunk;
                            self.add_job(location, w);
                            if job_duration == 0 {
                                job_completed = true;
                            }
                            current_time = self.time_output.end_time;
                            proof {
                                lemma_step_prefix(
                                    ti,
                                    location,
                                    st_pre,
                                    next_time_tw,
                                    next_time_op,
                                );
                                st = job_step(ti, location, st_pre);
                                fuel_left = fuel_pre - 1;
                                assert(st.rep == rep_work(st_pre.rep, location, w));
                                assert(st.current == current_time && st.remaining == job_duration
                                    && st.must_fit == must_fit && st.done == job_completed);
                                lemma_job_size_step(st_pre, st, cap0);
                                assert(iter_job(ti, location, st_pre, nat_of(fuel_pre))
                                    == iter_job(ti, location, st, nat_of(fuel_left)));
                                assert(self.time_output.schedule@.take(
                                    init.time_output.schedule@.len() as int,
                                ) =~= init.time_output.schedule@);
                            }
                        }
                    }
                },
                (None, Some(next_time_op)) => {
                    // No location window can serve the remaining work, but
                    // the operating hours can: work anyway; the lateness
                    // accrued at the end of the job accounts for it.
                    let chunk = next_time_op.end - next_time_op.start;
                    proof {
                        assert(event_ok(*self.time_input, Event::Work(next_time_op, location)))
                            by {
                            assert forall|k: int|
                                0 <= k < ws.len() implies !((#[trigger] ws[k]).end
                                > next_time_op.start && ws[k].spec_duration() >= d0) by {
                                if ws[k].end > next_time_op.start && ws[k].spec_duration() >= d0 {
                                    assert(!crate::time_windows::window_candidate(
                                        ws,
                                        current_time,
                                        job_duration,
                                        must_fit,
                                        k,
                                    ));
                                    assert(ws[k].end > current_time);
                                    assert(ws[k].spec_duration() >= job_duration);
                                    assert(false);
                                }
                            }
                            assert(no_fitting_window(ws, next_time_op.start, d0));
                        }
                    }
                    let ghost st_pre = st;
                    let ghost fuel_pre = fuel_left;
                    job_duration -= chunk;
                    self.add_job(location, next_time_op);
                    if job_duration == 0 {
                        job_completed = true;
                    }
                    current_time = self.time_output.end_time;
                    proof {
                        lemma_step_hours(ti, location, st_pre, next_time_op);
                        st = job_step(ti, location, st_pre);
                        fuel_left = fuel_pre - 1;
                        assert(st.rep == rep_work(st_pre.rep, location, next_time_op));
                        assert(st.current == current_time && st.remaining == job_duration
                            && st.must_fit == must_fit && st.done == job_completed);
                        lemma_job_size_step(st_pre, st, cap0);
                        assert(iter_job(ti, location, st_pre, nat_of(fuel_pre)) == iter_job(
                            ti,
                            location,
                            st,
                            nat_of(fuel_left),
                        ));
                        assert(self.time_output.schedule@.take(
                            init.time_output.schedule@.len() as int,
                        ) =~= init.time_output.schedule@);
                    }
                },
                (_, None) => {
                    // The operating hours can never hold the remaining work
                    // in one piece: allow the job to be split from here on,
                    // and count the split.
                    proof {
                        assert(must_fit);
                        match &self.time_input.operation_times {
                            Some(ot) => {
                                assert(job_duration > ot.daily_end - ot.daily_start);
                                assert(job_duration >= 1);
                            },
                            None => {
                                assert(false);
                            },
                        }
                    }
                    let ghost st_pre = st;
                    let ghost fuel_pre = fuel_left;
                    must_fit = false;
                    self.add_split();
                    current_time = self.time_output.end_time;
                    proof {
                        lemma_step_split(ti, location, st_pre);
                        st = job_step(ti, location, st_pre);
                        fuel_left = fuel_pre - 1;
                        assert(st.rep == rep_split(st_pre.rep));
                        assert(st.current == current_time && st.remaining == job_duration
                            && st.must_fit == must_fit && st.done == job_completed);
                        lemma_job_size_step(st_pre, st, cap0);
                        assert(iter_job(ti, location, st_pre, nat_of(fuel_pre)) == iter_job(
                            ti,
                            location,
                            st,
                            nat_of(fuel_left),
                        ));
                    }
                },
            }
        }
        proof {
            assert(self.time_output.end_time <= e0 + FUEL_PER_SECOND * d0 + FUEL_PER_SECOND);
            assert(self.time_output.lateness + self.time_output.end_time <= u64::MAX) by {
                assert(self.time_output.end_time <= eval_time_cap() + MAX_WINDOW_TIME
                    + FUEL_PER_SECOND * (MAX_TOTAL_DURATION + 2)) by {
                    assert(FUEL_PER_SECOND * d0 <= FUEL_PER_SECOND * MAX_TOTAL_DURATION)
                        by (nonlinear_arith)
                        requires
                            d0 <= MAX_TOTAL_DURATION,
                    ;
                }
                lemma_eval_time_cap_fits();
            }
        }
        proof {
            assert(iter_job(ti, location, st, nat_of(fuel_left)) == st);
            assert(spec_run_job(ti, location, st0) == st);
        }
        self.add_lateness(location);
        proof {
            assert(seq_lateness(ws, self.time_output.end_time) <= self.time_output.end_time);
            assert(out_matches(
                rep_late(st.rep, seq_lateness(ws, st.rep.end_time)),
                self.time_output,
                init.build_schedule,
            ));
        }
    }

    /// Travels the edge leaving position `i`, splitting the leg across
    /// operating segments as needed; with the hours open this always makes
    /// progress, so the leg always completes.
    fn execute_travel(&mut self, i: usize, Ghost(rep0): Ghost<EvalReport>)
        requires
            old(self).inv(),
            i < old(self).time_input.n(),
            old(self).time_output.end_time <= eval_time_cap() + MAX_WINDOW_TIME + FUEL_PER_SECOND
                * (2 + MAX_TOTAL_DURATION),
            out_matches(rep0, old(self).time_output, old(self).build_schedule),
        ensures
            out_matches(
                spec_after_travel(
                    *old(self).time_input,
                    rep0,
                    old(self).route.sequence@[i as int],
                    old(self).route.sequence@[((i + 1) as int) % (old(
                        self,
                    ).route.sequence@.len() as int)],
                ),
                final(self).time_output,
                old(self).build_schedule,
            ),
            final(self).inv(),
            final(self).time_input == old(self).time_input,
            final(self).route == old(self).route,
            final(self).build_schedule == old(self).build_schedule,
            final(self).time_output.start_time == old(self).time_output.start_time,
            final(self).time_output.traveling_time == old(self).time_output.traveling_time
                + edge_time(*old(self).time_input, old(self).route.sequence@, i as int),
            final(self).time_output.working_time == old(self).time_output.working_time,
            final(self).time_output.job_splits == old(self).time_output.job_splits,
            final(self).time_output.lateness == old(self).time_output.lateness,
            final(self).time_output.end_time >= old(self).time_output.end_time,
            final(self).time_output.end_time <= old(self).time_output.end_time + FUEL_PER_SECOND
                * edge_time(*old(self).time_input, old(self).route.sequence@, i as int),
    {
        let ghost init = *self;
        let n = self.route.sequence.len();
        let location = self.route.sequence[i];
        let next_location = self.route.sequence[(i + 1) % n];
        proof {
            vstd::arithmetic::div_mod::lemma_mod_bound(i as int + 1, n as int);
        }
        let travel_duration = self.time_input.travel_time(location, next_location);
        let ghost t0 = travel_duration;
        let mut remaining_travel_duration = travel_duration;
        let mut current_time = self.time_output.end_time;
        let ghost o = self.time_input.operation_times;
        let ghost mut rep = rep0;
        let ghost mut fuel_left: int = t0 + 1;
        proof {
            lemma_eval_time_cap_fits();
        }
        while remaining_travel_duration > 0
            invariant
                o == init.time_input.operation_times,
                out_matches(rep, self.time_output, init.build_schedule),
                iter_travel(o, rep0, t0, nat_of(t0 + 1)) == iter_travel(
                    o,
                    rep,
                    remaining_travel_duration,
                    nat_of(fuel_left),
                ),
                fuel_left >= remaining_travel_duration + 1,
                self.inv(),
                self.time_input == init.time_input,
                self.route == init.route,
                self.build_schedule == init.build_schedule,
                t0 == edge_time(*init.time_input, init.route.sequence@, i as int),
                t0 <= MAX_TOTAL_DURATION,
                remaining_travel_duration <= t0,
                init.time_output.end_time <= eval_time_cap() + MAX_WINDOW_TIME + FUEL_PER_SECOND
                    * (2 + MAX_TOTAL_DURATION),
                self.time_output.start_time == init.time_output.start_time,
                self.time_output.working_time == init.time_output.working_time,
                self.time_output.job_splits == init.time_output.job_splits,
                self.time_output.lateness == init.time_output.lateness,
                self.time_output.traveling_time == init.time_output.traveling_time + t0
                    - remaining_travel_duration,
                self.time_output.end_time >= init.time_output.end_time,
                self.time_output.end_time <= init.time_output.end_time + FUEL_PER_SECOND * (t0
                    - remaining_travel_duration),
                current_time == self.time_output.end_time,
            decreases remaining_travel_duration,
        {
            proof {
                assert(current_time <= EVAL_TIME_BOUND) by {
                    assert(FUEL_PER_SECOND * (t0 - remaining_travel_duration) <= FUEL_PER_SECOND
                        * MAX_TOTAL_DURATION) by (nonlinear_arith)
                        requires
                            0 <= t0 - remaining_travel_duration <= MAX_TOTAL_DURATION,
                    ;
                }
            }
            let maybe_op = op_find(
                &self.time_input.operation_times,
                current_time,
                remaining_travel_duration,
                false,
            );
            match maybe_op {
                Some(next_time_op) => {
                    let chunk = next_time_op.end - next_time_op.start;
                    let ghost rem_pre = remaining_travel_duration;
                    let ghost fuel_pre = fuel_left;
                    let ghost rep_pre = rep;
                    remaining_travel_duration -= chunk;
                    self.add_travel(next_time_op);
                    current_time = self.time_output.end_time;
                    proof {
                        rep = rep_travel(rep_pre, next_time_op);
                        fuel_left = fuel_left - 1;
                        assert(iter_travel(o, rep_pre, rem_pre, nat_of(fuel_pre)) == iter_travel(
                            o,
                            rep,
                            remaining_travel_duration,
                            nat_of(fuel_left),
                        ));
                    }
                },
                None => {
                    // With splitting allowed the operating hours always
                    // offer an interval.
                    proof {
                        assert(false);
                    }
                    vstd::pervasive::unreached()
                },
            }
        }
        proof {
            assert(iter_travel(o, rep, 0, nat_of(fuel_left)) == rep);
        }
    }

    /// Walks the whole route: for each position, work the location's job,
    /// then travel to the next location, closing the tour at the end.
    #[verifier::rlimit(100)]
    fn finish_schedule(self) -> (r: TimeOutput<Complete>)
        requires
            self.inv(),
            self.time_output.end_time <= MAX_WINDOW_TIME,
            self.time_output.end_time == self.time_output.start_time,
            self.time_output.duration == 0,
            self.time_output.lateness == 0,
            self.time_output.job_splits == 0,
            self.time_output.schedule@.len() == 0,
        ensures
            r.wf(),
            report_agrees(
                spec_eval_from(
                    *self.time_input,
                    self.route.sequence@,
                    0,
                    rep_new(self.time_output.start_time),
                ),
                r,
                self.build_schedule,
            ),
            r.start_time == self.time_output.start_time,
            r.working_time == self.time_output.working_time + route_work(
                *self.time_input,
                self.route.sequence@,
                self.time_input.n(),
            ),
            r.traveling_time == self.time_output.traveling_time + route_travel(
                *self.time_input,
                self.route.sequence@,
                self.time_input.n(),
            ),
            r.job_splits <= self.time_input.n(),
            forall|j: int|
                0 <= j < r.schedule@.len() ==> event_ok(
                    *self.time_input,
                    #[trigger] r.schedule@[j],
                ),
            self.build_schedule ==> r.log_complete(),
            !self.build_schedule ==> r.schedule@.len() == 0,
    {
        let ghost init = self;
        let ghost s = self.route.sequence@;
        let ghost ti = *self.time_input;
        let mut this = self;
        let n = this.route.sequence.len();
        let ghost rep0 = rep_new(this.time_output.start_time);
        let ghost mut rep = rep0;
        proof {
            assert(this.time_output.schedule@ =~= Seq::<Event>::empty());
            assert(out_matches(rep, this.time_output, this.build_schedule));
        }
        let mut i: usize = 0;
        while i < n
            invariant
                rep0 == rep_new(init.time_output.start_time),
                out_matches(rep, this.time_output, this.build_schedule),
                spec_eval_from(ti, s, i as int, rep) == spec_eval_from(ti, s, 0, rep0),
                this.inv(),
                this.time_input == init.time_input,
                this.route == init.route,
                this.build_schedule == init.build_schedule,
                s == this.route.sequence@,
                ti == *this.time_input,
                n == ti.n(),
                0 <= i <= n,
                this.time_output.start_time == init.time_output.start_time,
                this.time_output.working_time == init.time_output.working_time + route_work(
                    ti,
                    s,
                    i as int,
                ),
                this.time_output.traveling_time == init.time_output.traveling_time + route_travel(
                    ti,
                    s,
                    i as int,
                ),
                this.time_output.job_splits <= i,
                this.time_output.lateness <= (i as int) * eval_time_cap(),
                init.time_output.end_time <= MAX_WINDOW_TIME,
                this.time_output.end_time <= MAX_WINDOW_TIME + FUEL_PER_SECOND * (2 * i
                    + route_work(ti, s, i as int) + route_travel(ti, s, i as int)),
            decreases n - i,
        {
            proof {
                lemma_route_budget(ti, s, i as int);
                lemma_route_budget(ti, s, i as int + 1);
                lemma_eval_time_cap_fits();
                assert(this.time_output.end_time <= eval_time_cap()) by {
                    assert(FUEL_PER_SECOND * (2 * i + route_work(ti, s, i as int) + route_travel(
                        ti,
                        s,
                        i as int,
                    )) <= FUEL_PER_SECOND * (2 * MAX_LOCATIONS_INT + MAX_TOTAL_DURATION))
                        by (nonlinear_arith)
                        requires
                            0 <= 2 * i + route_work(ti, s, i as int) + route_travel(ti, s, i as int)
                                <= 2 * MAX_LOCATIONS_INT + MAX_TOTAL_DURATION,
                    ;
                }
                assert(this.time_output.lateness + 2 * EVAL_TIME_BOUND <= u64::MAX) by {
                    assert((i as int) * eval_time_cap() <= (MAX_LOCATIONS_INT as int)
                        * eval_time_cap()) by (nonlinear_arith)
                        requires
                            0 <= i <= MAX_LOCATIONS_INT,
                            eval_time_cap() >= 0,
                    ;
                    lemma_lateness_budget();
                }
            }
            let ghost before = this;
            let ghost jrep = spec_after_job(
                ti,
                s[i as int],
                rep,
                ti.job_durations@[s[i as int] as int],
            );
            this.execute_job(i, Ghost(rep));
            proof {
                lemma_route_budget(ti, s, i as int);
                assert(route_work(ti, s, i as int + 1) == route_work(ti, s, i as int)
                    + ti.job_durations@[s[i as int] as int]);
                assert(this.time_output.end_time <= eval_time_cap() + MAX_WINDOW_TIME
                    + FUEL_PER_SECOND * (2 + MAX_TOTAL_DURATION)) by {
                    assert(FUEL_PER_SECOND * (2 + ti.job_durations@[s[i as int] as int])
                        <= FUEL_PER_SECOND * (2 + MAX_TOTAL_DURATION)) by (nonlinear_arith)
                        requires
                            0 <= ti.job_durations@[s[i as int] as int] <= MAX_TOTAL_DURATION,
                    ;
                    assert(before.time_output.end_time <= eval_time_cap());
                }
            }
            let ghost mid = this;
            let ghost trep = spec_after_travel(
                ti,
                jrep,
                s[i as int],
                s[((i + 1) as int) % (s.len() as int)],
            );
            this.execute_travel(i, Ghost(jrep));
            proof {
                assert(route_travel(ti, s, i as int + 1) == route_travel(ti, s, i as int)
                    + edge_time(ti, s, i as int));
                assert(this.time_output.lateness <= (i as int + 1) * eval_time_cap()) by {
                    assert(mid.time_output.lateness <= before.time_output.lateness
                        + mid.time_output.end_time);
                    lemma_end_within_cap(ti, s, i as int, before.time_output.end_time as int,
                        mid.time_output.end_time as int, init.time_output.end_time as int);
                    assert((i as int) * eval_time_cap() + eval_time_cap() == (i as int + 1)
                        * eval_time_cap()) by (nonlinear_arith);
                }
                lemma_end_budget(ti, s, i as int, before.time_output.end_time as int,
                    mid.time_output.end_time as int, this.time_output.end_time as int,
                    init.time_output.end_time as int);
                assert(out_matches(trep, this.time_output, this.build_schedule));
                assert(spec_eval_from(ti, s, i as int, rep) == spec_eval_from(
                    ti,
                    s,
                    i + 1,
                    trep,
                ));
                rep = trep;
            }
            i += 1;
        }
        proof {
            assert(spec_eval_from(ti, s, n as int, rep) == rep);
        }
        this.time_output.complete()
    }
}

/// The location cap as a plain integer, for the ghost arithmetic below.
const MAX_LOCATIONS_INT: u64 = 8192;

/// The lateness accumulator stays clear of overflow throughout a route.
proof fn lemma_lateness_budget()
    ensures
        (MAX_LOCATIONS_INT as int) * eval_time_cap() + eval_time_cap() + 2 * EVAL_TIME_BOUND
            <= u64::MAX,
{
    assert((MAX_LOCATIONS_INT as int) * eval_time_cap() + eval_time_cap() + 2 * EVAL_TIME_BOUND
        <= u64::MAX) by (nonlinear_arith);
}

/// After one job, the schedule's end stays within the evaluation cap.
proof fn lemma_end_within_cap(
    ti: TimeInput,
    s: Seq<usize>,
    i: int,
    before_end: int,
    mid_end: int,
    init_end: int,
)
    requires
        ti.wf(),
        is_permutation(s, ti.n()),
        0 <= i < s.len(),
        init_end <= MAX_WINDOW_TIME,
        before_end <= MAX_WINDOW_TIME + FUEL_PER_SECOND * (2 * i + route_work(ti, s, i)
            + route_travel(ti, s, i)),
        mid_end <= max(before_end, MAX_WINDOW_TIME as int) + FUEL_PER_SECOND * (2
            + ti.job_durations@[s[i] as int]),
    ensures
        mid_end <= eval_time_cap(),
{
    lemma_route_budget(ti, s, i);
    lemma_route_budget(ti, s, i + 1);
    assert(route_work(ti, s, i + 1) == route_work(ti, s, i) + ti.job_durations@[s[i] as int]);
    let load = 2 * i + 2 + route_work(ti, s, i + 1) + route_travel(ti, s, i);
    assert(mid_end <= MAX_WINDOW_TIME + FUEL_PER_SECOND * load) by (nonlinear_arith)
        requires
            before_end <= MAX_WINDOW_TIME + FUEL_PER_SECOND * (2 * i + route_work(ti, s, i)
                + route_travel(ti, s, i)),
            mid_end <= max(before_end, MAX_WINDOW_TIME as int) + FUEL_PER_SECOND * (2
                + ti.job_durations@[s[i] as int]),
            load == 2 * i + 2 + route_work(ti, s, i + 1) + route_travel(ti, s, i),
            route_work(ti, s, i + 1) == route_work(ti, s, i) + ti.job_durations@[s[i] as int],
            route_work(ti, s, i) >= 0,
            route_travel(ti, s, i) >= 0,
            i >= 0,
    ;
    assert(FUEL_PER_SECOND * load <= FUEL_PER_SECOND * (2 * MAX_LOCATIONS_INT
        + MAX_TOTAL_DURATION + 2)) by (nonlinear_arith)
        requires
            0 <= load <= 2 * MAX_LOCATIONS_INT + MAX_TOTAL_DURATION + 2,
    ;
    assert(s.len() <= MAX_LOCATIONS_INT);
    assert(load <= 2 * MAX_LOCATIONS_INT + MAX_TOTAL_DURATION + 2) by {
        lemma_route_budget(ti, s, i + 1);
    }
}

/// After one job and one travel leg, the end bound advances by exactly the
/// budget the loop invariant allots to this position.
proof fn lemma_end_budget(
    ti: TimeInput,
    s: Seq<usize>,
    i: int,
    before_end: int,
    mid_end: int,
    after_end: int,
    init_end: int,
)
    requires
        ti.wf(),
        is_permutation(s, ti.n()),
        0 <= i < s.len(),
        init_end <= MAX_WINDOW_TIME,
        before_end <= MAX_WINDOW_TIME + FUEL_PER_SECOND * (2 * i + route_work(ti, s, i)
            + route_travel(ti, s, i)),
        mid_end <= max(before_end, MAX_WINDOW_TIME as int) + FUEL_PER_SECOND * (2
            + ti.job_durations@[s[i] as int]),
        after_end <= mid_end + FUEL_PER_SECOND * edge_time(ti, s, i),
    ensures
        after_end <= MAX_WINDOW_TIME + FUEL_PER_SECOND * (2 * (i + 1) + route_work(ti, s, i + 1)
            + route_travel(ti, s, i + 1)),
{
    lemma_route_budget(ti, s, i);
    assert(route_work(ti, s, i + 1) == route_work(ti, s, i) + ti.job_durations@[s[i] as int]);
    assert(route_travel(ti, s, i + 1) == route_travel(ti, s, i) + edge_time(ti, s, i));
    assert(after_end <= MAX_WINDOW_TIME + FUEL_PER_SECOND * (2 * (i + 1) + route_work(ti, s, i
        + 1) + route_travel(ti, s, i + 1))) by (nonlinear_arith)
        requires
            before_end <= MAX_WINDOW_TIME + FUEL_PER_SECOND * (2 * i + route_work(ti, s, i)
                + route_travel(ti, s, i)),
            mid_end <= max(before_end, MAX_WINDOW_TIME as int) + FUEL_PER_SECOND * (2
                + ti.job_durations@[s[i] as int]),
            after_end <= mid_end + FUEL_PER_SECOND * edge_time(ti, s, i),
            route_work(ti, s, i + 1) == route_work(ti, s, i) + ti.job_durations@[s[i] as int],
            route_travel(ti, s, i + 1) == route_travel(ti, s, i) + edge_time(ti, s, i),
            route_work(ti, s, i) >= 0,
            route_travel(ti, s, i) >= 0,
            edge_time(ti, s, i) >= 0,
            i >= 0,
            FUEL_PER_SECOND > 0,
    ;
}

/// Everything the evaluator promises of a finished report for a route: the
/// accumulators balance, the schedule starts at the earliest opening of the
/// first location, the working and traveling totals equal the route's job
/// and travel-duration sums, every logged work event respects the operating
/// hours and the location windows, and the event log is kept exactly when
/// asked for.
pub open spec fn report_matches(
    ti: TimeInput,
    s: Seq<usize>,
    build_schedule: bool,
    r: TimeOutput<Complete>,
) -> bool {
    &&& r.wf()
    &&& r.duration == r.waiting_time + r.working_time + r.traveling_time
    &&& r.end_time == r.start_time + r.duration
    &&& r.start_time == ti.time_windows@[s[0] as int].windows@[0].start
    &&& r.working_time == route_work(ti, s, ti.n())
    &&& r.traveling_time == route_travel(ti, s, ti.n())
    &&& r.job_splits <= ti.n()
    &&& forall|j: int| 0 <= j < r.schedule@.len() ==> event_ok(ti, #[trigger] r.schedule@[j])
    &&& (build_schedule ==> r.log_complete())
    &&& (!build_schedule ==> r.schedule@.len() == 0)
}

/// The two evaluation modes agree: reports produced with and without the
/// event log carry the same totals for the same route, and the kept log is
/// exactly the specified one.
pub proof fn lemma_modes_agree(
    ti: TimeInput,
    s: Seq<usize>,
    bare: TimeOutput<Complete>,
    logged: TimeOutput<Complete>,
)
    requires
        report_agrees(spec_evaluate(ti, s), bare, false),
        report_agrees(spec_evaluate(ti, s), logged, true),
    ensures
        bare.start_time == logged.start_time,
        bare.end_time == logged.end_time,
        bare.duration == logged.duration,
        bare.lateness == logged.lateness,
        bare.working_time == logged.working_time,
        bare.waiting_time == logged.waiting_time,
        bare.traveling_time == logged.traveling_time,
        bare.job_splits == logged.job_splits,
        logged.schedule@ == spec_evaluate(ti, s).log,
{
}

/// Placement of work: every logged work event lies inside the operating
/// hours, and it starts inside one of its location's windows unless no
/// window of that location ending after the event's start could hold the
/// location's whole job in one piece.  In particular, in a feasible
/// schedule whose locations each have a window long enough for their job
/// still ahead of the work, every work event starts inside a window.
pub proof fn lemma_work_event_placement(
    ti: TimeInput,
    s: Seq<usize>,
    build_schedule: bool,
    r: TimeOutput<Complete>,
    j: int,
)
    requires
        report_matches(ti, s, build_schedule, r),
        0 <= j < r.schedule@.len(),
    ensures
        event_within_hours(ti, r.schedule@[j]),
        event_placed(ti, r.schedule@[j]),
        r.schedule@[j] matches Event::Work(w, loc) ==> {
            let ws = ti.time_windows@[loc as int].windows@;
            !no_fitting_window(ws, w.start, ti.job_durations@[loc as int]) ==> in_some_window(
                ws,
                w.start,
            )
        },
{
    assert(event_ok(ti, r.schedule@[j]));
}

/// Evaluates routes against one bundle of time inputs.
pub struct TimePenalizer {
    pub time_input: TimeInput,
}

impl TimePenalizer {
    pub open spec fn wf(self) -> bool {
        self.time_input.wf()
    }

    pub fn new(time_input: TimeInput) -> (r: TimePenalizer)
        ensures
            r.time_input == time_input,
    {
        TimePenalizer { time_input }
    }

    /// Evaluates one route: synthesizes its full timeline and returns the
    /// frozen totals.  The schedule starts at the earliest opening of the
    /// route's first location.  The event log is kept only when asked for;
    /// the totals are computed either way.
    pub fn penalize(&self, route: &Route, build_schedule: bool) -> (r: TimeOutput<Complete>)
        requires
            self.wf(),
            is_permutation(route.sequence@, self.time_input.n()),
        ensures
            report_matches(self.time_input, route.sequence@, build_schedule, r),
            report_agrees(spec_evaluate(self.time_input, route.sequence@), r, build_schedule),
    {
        let first = route.sequence[0];
        let start_time = self.time_input.time_windows[first].windows[0].start;
        proof {
            assert(self.time_input.time_windows@[first as int].windows@[0].wf());
            assert(self.time_input.time_windows@[first as int].windows@[0].end
                <= MAX_WINDOW_TIME);
        }
        let working_time_penalizer = WorkingTimePenalizer::new(
            &self.time_input,
            route,
            start_time,
            build_schedule,
        );
        let r = working_time_penalizer.finish_schedule();
        proof {
            reveal(spec_evaluate);
        }
        r
    }
}

} // verus!
