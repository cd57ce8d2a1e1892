//! Evaluates candidate routes into solutions and compares solutions under
//! the lexicographic order.

use vstd::prelude::*;

use crate::distance::{route_cost, DistancePenalizer};
use crate::output::{key_lt, solution_key, Solution};
use crate::route::{is_permutation, Route};
use crate::time::{report_agrees, report_matches, spec_evaluate, TimePenalizer};
use crate::time_output::{Complete, TimeOutput};

verus! {

/// Evaluates routes by distance and, when time inputs are configured, by
/// the six-key lexicographic order.
pub struct Penalizer {
    pub distance_penalizer: DistancePenalizer,
    pub time_penalizer: Option<TimePenalizer>,
}

/// Whether the first solution ranks strictly better than the second under
/// the penalizer's order: by the six keys when time inputs are configured,
/// and by distance alone otherwise.
pub open spec fn spec_is_better(p: Penalizer, sol1: Solution, sol2: Solution) -> bool {
    if p.time_penalizer is Some {
        key_lt(solution_key(sol1), solution_key(sol2))
    } else {
        sol1.distance < sol2.distance
    }
}

/// The solution is honest for this penalizer: its distance is the true
/// distance of its route, and its time report, present exactly when time
/// inputs are configured, carries exactly the evaluation of its route.
pub open spec fn solution_matches(p: Penalizer, s: Solution) -> bool {
    &&& s.distance == route_cost(p.distance_penalizer.distance_matrix.matrix@, s.route.sequence@)
    &&& s.time_report.is_some() == p.time_penalizer.is_some()
    &&& match (p.time_penalizer, s.time_report) {
        (Some(tp), Some(tr)) => report_matches(tp.time_input, s.route.sequence@, false, tr)
            && report_agrees(spec_evaluate(tp.time_input, s.route.sequence@), tr, false),
        (None, None) => true,
        _ => false,
    }
}

/// The six comparison keys a route evaluates to under this penalizer, as a
/// function of the route alone.
pub open spec fn eval_key(p: Penalizer, s: Seq<usize>) -> (int, int, int, int, int, int) {
    let dist = route_cost(p.distance_penalizer.distance_matrix.matrix@, s);
    match p.time_penalizer {
        Some(tp) => {
            let rep = spec_evaluate(tp.time_input, s);
            (
                rep.job_splits as int,
                rep.lateness as int,
                rep.traveling_time as int,
                rep.duration as int,
                rep.waiting_time as int,
                dist,
            )
        },
        None => (0, 0, 0, 0, 0, dist),
    }
}

impl Penalizer {
    pub open spec fn n(self) -> int {
        self.distance_penalizer.distance_matrix.n()
    }

    pub open spec fn wf(self) -> bool {
        &&& self.distance_penalizer.wf()
        &&& match self.time_penalizer {
            Some(tp) => tp.wf() && tp.time_input.n() == self.n(),
            None => true,
        }
    }

    pub fn new(distance_penalizer: DistancePenalizer, time_penalizer: Option<TimePenalizer>) -> (r:
        Penalizer)
        ensures
            r.distance_penalizer == distance_penalizer,
            r.time_penalizer == time_penalizer,
    {
        Penalizer { distance_penalizer, time_penalizer }
    }

    /// Evaluates one route into a solution: its total distance and, when
    /// time inputs are configured, its full time report.
    pub fn penalize(&self, route: Route, build_schedule: bool) -> (r: Solution)
        requires
            self.wf(),
            is_permutation(route.sequence@, self.n()),
        ensures
            r.route == route,
            r.distance == route_cost(self.distance_penalizer.distance_matrix.matrix@, route.sequence@),
            r.time_report.is_some() == self.time_penalizer.is_some(),
            match (self.time_penalizer, r.time_report) {
                (Some(tp), Some(tr)) => report_matches(
                    tp.time_input,
                    route.sequence@,
                    build_schedule,
                    tr,
                ) && report_agrees(spec_evaluate(tp.time_input, route.sequence@), tr, build_schedule),
                (None, None) => true,
                _ => false,
            },
            solution_key(r) == eval_key(*self, route.sequence@),
    {
        let distance = self.distance_penalizer.penalize(&route);
        let time_report = self.time(&route, build_schedule);
        Solution { route, distance, time_report }
    }

    /// Whether the first solution ranks strictly better than the second:
    /// fewer job splits, then less lateness, then less traveling time, then
    /// a shorter total duration, then less waiting time, then a smaller
    /// distance.
    pub fn is_better(&self, sol1: &Solution, sol2: &Solution) -> (r: bool)
        requires
            self.time_penalizer.is_some() ==> sol1.time_report.is_some()
                && sol2.time_report.is_some(),
        ensures
            r == spec_is_better(*self, *sol1, *sol2),
    {
        match &self.time_penalizer {
            None => sol1.distance < sol2.distance,
            Some(_) => {
                let time_report1 = sol1.time_report.as_ref().unwrap();
                let time_report2 = sol2.time_report.as_ref().unwrap();
                if time_report1.job_splits < time_report2.job_splits {
                    return true;
                }
                if time_report1.job_splits > time_report2.job_splits {
                    return false;
                }
                if time_report1.lateness < time_report2.lateness {
                    return true;
                }
                if time_report1.lateness > time_report2.lateness {
                    return false;
                }
                if time_report1.traveling_time < time_report2.traveling_time {
                    return true;
                }
                if time_report1.traveling_time > time_report2.traveling_time {
                    return false;
                }
                if time_report1.duration < time_report2.duration {
                    return true;
                }
                if time_report1.duration > time_report2.duration {
                    return false;
                }
                if time_report1.waiting_time < time_report2.waiting_time {
                    return true;
                }
                if time_report1.waiting_time > time_report2.waiting_time {
                    return false;
                }
                sol1.distance < sol2.distance
            },
        }
    }

    /// The route's time report, when time inputs are configured.
    pub fn time(&self, route: &Route, build_schedule: bool) -> (r: Option<TimeOutput<Complete>>)
        requires
            self.wf(),
            is_permutation(route.sequence@, self.n()),
        ensures
            r.is_some() == self.time_penalizer.is_some(),
            match (self.time_penalizer, r) {
                (Some(tp), Some(tr)) => report_matches(
                    tp.time_input,
                    route.sequence@,
                    build_schedule,
                    tr,
                ) && report_agrees(spec_evaluate(tp.time_input, route.sequence@), tr, build_schedule),
                (None, None) => true,
                _ => false,
            },
    {
        match &self.time_penalizer {
            None => None,
            Some(time_penalizer) => Some(time_penalizer.penalize(route, build_schedule)),
        }
    }
}

} // verus!
