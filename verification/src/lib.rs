//! A solver for the traveling salesman problem with time windows,
//! daily operating hours, working-day masks and splittable jobs.
//!
//! The schedule evaluator synthesizes a feasible timeline for a candidate
//! tour, interleaving waiting, working and traveling, and accumulates the
//! penalty quantities used by the lexicographic comparator.  The driver
//! explores permutation neighborhoods, accepting strictly improving moves,
//! and restarts from random permutations under a wall-clock budget.

pub mod distance;
pub mod input;
pub mod output;
pub mod penalizer;
pub mod limits;
pub mod local_moves;
pub mod route;
pub mod sums;
pub mod operation_times;
pub mod solver;
pub mod time;
pub mod time_input;
pub mod time_output;
pub mod time_windows;

use vstd::prelude::*;

use crate::input::{get_input_from_raw, SolverError};
use crate::output::{clone_solution, Output};
use crate::route::is_permutation;
use crate::solver::Solver;

verus! {

/// Solves the problem end to end: validates the raw inputs, runs the
/// iterated local search, and returns the best tour found with the number
/// of evaluated solutions and the elapsed seconds.  Invalid inputs are
/// rejected with their error kind before any evaluation begins.
pub fn solve(
    distance_matrix: Vec<Vec<u64>>,
    duration_matrix: Option<Vec<Vec<u64>>>,
    job_durations: Option<Vec<u64>>,
    time_windows: Option<Vec<Vec<(u64, u64)>>>,
    operation_times: Option<(u64, u64)>,
    working_days: Option<Vec<bool>>,
    travel_duration_until_break: Option<u64>,
    break_duration: Option<u64>,
    time_limit: Option<u64>,
    init_route: Option<Vec<usize>>,
) -> (r: Result<Output, SolverError>)
    ensures
        r is Ok <==> crate::input::raw_inputs_ok(
            distance_matrix@,
            duration_matrix,
            job_durations,
            time_windows,
            operation_times,
            working_days,
            init_route,
        ),
        r matches Ok(out) ==> {
            &&& is_permutation(out.solution.route.sequence@, distance_matrix@.len() as int)
            &&& out.solution.distance == crate::distance::route_cost(
                distance_matrix@,
                out.solution.route.sequence@,
            )
            &&& out.solution.time_report.is_some() == (duration_matrix is Some
                && job_durations is Some && time_windows is Some)
            &&& match out.solution.time_report {
                Some(tr) => {
                    &&& tr.duration == tr.waiting_time + tr.working_time + tr.traveling_time
                    &&& tr.end_time == tr.start_time + tr.duration
                },
                None => true,
            }
        },
        !crate::input::distance_shape_ok(distance_matrix@) ==> (r matches Err(e) && e
            == SolverError::ShapeError),
        !(duration_matrix is Some && job_durations is Some && time_windows is Some) ==> (
        r matches Ok(out) ==> out.solution.distance <= crate::distance::route_cost(
            distance_matrix@,
            match init_route {
                Some(ir) => ir@,
                None => crate::solver::identity_seq(distance_matrix@.len() as int),
            },
        )),
{
    let input = match get_input_from_raw(
        distance_matrix,
        duration_matrix,
        job_durations,
        time_windows,
        operation_times,
        working_days,
        travel_duration_until_break,
        break_duration,
        time_limit,
        init_route,
    ) {
        Ok(input) => input,
        Err(e) => {
            return Err(e);
        },
    };
    let mut solver = Solver::new(input);
    solver.solve();
    let solution = clone_solution(&solver.best_solution);
    Ok(Output { solution, iterations: solver.iterations, time_taken: solver.time_taken })
}

} // verus!
