//! What the solver returns: a solution and the run statistics.

use vstd::prelude::*;

use crate::route::Route;
use crate::time_output::{Complete, Event, TimeOutput};

verus! {

/// The solver's result: the best solution found, how many solutions were
/// evaluated, and the elapsed wall-clock seconds.
pub struct Output {
    pub solution: Solution,
    pub iterations: u64,
    pub time_taken: u64,
}

/// One evaluated route with its distance and, when time inputs were
/// configured, its time report.
pub struct Solution {
    pub route: Route,
    pub distance: u64,
    pub time_report: Option<TimeOutput<Complete>>,
}

/// The six comparison keys of a solution, in their lexicographic order:
/// job splits, lateness, traveling time, total duration, waiting time and
/// distance.  A solution without a time report scores zero on the five
/// time keys.
pub open spec fn solution_key(s: Solution) -> (int, int, int, int, int, int) {
    match s.time_report {
        Some(tr) => (
            tr.job_splits as int,
            tr.lateness as int,
            tr.traveling_time as int,
            tr.duration as int,
            tr.waiting_time as int,
            s.distance as int,
        ),
        None => (0, 0, 0, 0, 0, s.distance as int),
    }
}

/// Strict lexicographic order on six-key tuples.
pub open spec fn key_lt(a: (int, int, int, int, int, int), b: (int, int, int, int, int, int)) -> bool {
    if a.0 != b.0 {
        a.0 < b.0
    } else if a.1 != b.1 {
        a.1 < b.1
    } else if a.2 != b.2 {
        a.2 < b.2
    } else if a.3 != b.3 {
        a.3 < b.3
    } else if a.4 != b.4 {
        a.4 < b.4
    } else {
        a.5 < b.5
    }
}

pub open spec fn key_le(a: (int, int, int, int, int, int), b: (int, int, int, int, int, int)) -> bool {
    !key_lt(b, a)
}

/// The lexicographic order is transitive, also across its strict and
/// non-strict forms.
pub proof fn lemma_key_order(
    a: (int, int, int, int, int, int),
    b: (int, int, int, int, int, int),
    c: (int, int, int, int, int, int),
)
    ensures
        key_lt(a, b) && key_lt(b, c) ==> key_lt(a, c),
        key_le(a, b) && key_le(b, c) ==> key_le(a, c),
        key_lt(a, b) && key_le(b, c) ==> key_lt(a, c),
        key_le(a, b) && key_lt(b, c) ==> key_lt(a, c),
        key_le(a, a),
{
}

/// Two frozen reports agree in every field.
pub open spec fn report_fields_eq(
    a: TimeOutput<Complete>,
    b: TimeOutput<Complete>,
) -> bool {
    &&& a.start_time == b.start_time
    &&& a.end_time == b.end_time
    &&& a.duration == b.duration
    &&& a.lateness == b.lateness
    &&& a.working_time == b.working_time
    &&& a.waiting_time == b.waiting_time
    &&& a.traveling_time == b.traveling_time
    &&& a.job_splits == b.job_splits
    &&& a.schedule@ == b.schedule@
}

/// Copies a solution; the copy carries the same route, distance, report
/// and key.
pub fn clone_solution(s: &Solution) -> (r: Solution)
    ensures
        r.route.sequence@ == s.route.sequence@,
        r.distance == s.distance,
        r.time_report.is_some() == s.time_report.is_some(),
        match (s.time_report, r.time_report) {
            (Some(a), Some(b)) => report_fields_eq(a, b),
            (None, None) => true,
            _ => false,
        },
        solution_key(r) == solution_key(*s),
{
    let route = Route { sequence: clone_usizes(&s.route.sequence) };
    let time_report = match &s.time_report {
        None => None,
        Some(tr) => Some(clone_report(tr)),
    };
    Solution { route, distance: s.distance, time_report }
}

/// Copies a sequence of indices.
pub(crate) fn clone_usizes(v: &Vec<usize>) -> (r: Vec<usize>)
    ensures
        r@ == v@,
{
    let mut r: Vec<usize> = Vec::new();
    let mut i: usize = 0;
    while i < v.len()
        invariant
            i <= v@.len(),
            r@ == v@.take(i as int),
        decreases v@.len() - i,
    {
        r.push(v[i]);
        proof {
            assert(v@.take(i + 1) == v@.take(i as int).push(v@[i as int]));
        }
        i += 1;
    }
    proof {
        assert(v@.take(v@.len() as int) == v@);
    }
    r
}

/// Copies an event log.
fn clone_events(v: &Vec<Event>) -> (r: Vec<Event>)
    ensures
        r@ == v@,
{
    let mut r: Vec<Event> = Vec::new();
    let mut i: usize = 0;
    while i < v.len()
        invariant
            i <= v@.len(),
            r@ == v@.take(i as int),
        decreases v@.len() - i,
    {
        r.push(v[i]);
        proof {
            assert(v@.take(i + 1) == v@.take(i as int).push(v@[i as int]));
        }
        i += 1;
    }
    proof {
        assert(v@.take(v@.len() as int) == v@);
    }
    r
}

/// Copies a frozen time report, field for field.
pub fn clone_report(tr: &TimeOutput<Complete>) -> (r: TimeOutput<Complete>)
    ensures
        r.start_time == tr.start_time,
        r.end_time == tr.end_time,
        r.duration == tr.duration,
        r.lateness == tr.lateness,
        r.working_time == tr.working_time,
        r.waiting_time == tr.waiting_time,
        r.traveling_time == tr.traveling_time,
        r.job_splits == tr.job_splits,
        r.schedule@ == tr.schedule@,
{
    TimeOutput {
        start_time: tr.start_time,
        end_time: tr.end_time,
        duration: tr.duration,
        lateness: tr.lateness,
        working_time: tr.working_time,
        waiting_time: tr.waiting_time,
        traveling_time: tr.traveling_time,
        job_splits: tr.job_splits,
        schedule: clone_events(&tr.schedule),
        phantom: core::marker::PhantomData,
    }
}

} // verus!
