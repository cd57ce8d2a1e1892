//! What the solver receives from the outside world: validated inputs and
//! the error taxonomy of the validation boundary.

use vstd::prelude::*;

use crate::distance::DistanceMatrix;
use crate::limits::{MAX_DISTANCE, MAX_LOCATIONS};
use crate::route::{is_permutation, Route};
use crate::time_input::{transform, TimeInput};

verus! {

/// The distinct kinds of invalid input, reported before any evaluation.
#[derive(Debug, Clone, Copy, PartialEq, Eq, Structural)]
pub enum SolverError {
    /// A matrix is not square, or a table's length does not match the
    /// number of locations.
    ShapeError,
    /// A window list is out of order or overlapping.
    OrderError,
    /// The daily hours are inverted or leave the day, no working day is
    /// set, or a value exceeds a capacity limit.
    BoundsError,
    /// The initial route is not a permutation of the locations.
    RouteError,
}

/// Validated inputs, ready for the solver.
pub struct Input {
    pub distance_matrix: DistanceMatrix,
    pub time_input: Option<TimeInput>,
    pub time_limit: Option<u64>,
    pub init_route: Option<Route>,
}

impl Input {
    pub open spec fn wf(self) -> bool {
        &&& self.distance_matrix.wf()
        &&& match self.time_input {
            Some(ti) => ti.wf() && ti.n() == self.distance_matrix.n(),
            None => true,
        }
        &&& match self.init_route {
            Some(r) => is_permutation(r.sequence@, self.distance_matrix.n()),
            None => true,
        }
    }

    pub fn new(
        distance_matrix: DistanceMatrix,
        time_input: Option<TimeInput>,
        time_limit: Option<u64>,
        init_route: Option<Route>,
    ) -> (r: Input)
        ensures
            r.distance_matrix == distance_matrix,
            r.time_input == time_input,
            r.time_limit == time_limit,
            r.init_route == init_route,
    {
        Input { distance_matrix, time_input, time_limit, init_route }
    }
}

/// The distance matrix is square over at least two locations.
pub open spec fn distance_shape_ok(dm: Seq<Vec<u64>>) -> bool {
    &&& dm.len() >= 2
    &&& forall|i: int| 0 <= i < dm.len() ==> (#[trigger] dm[i])@.len() == dm.len()
}

/// The distance matrix respects the capacity limits.
pub open spec fn distance_bounds_ok(dm: Seq<Vec<u64>>) -> bool {
    &&& dm.len() <= MAX_LOCATIONS
    &&& forall|i: int, j: int|
        0 <= i < dm.len() && 0 <= j < dm.len() ==> (#[trigger] dm[i]@[j]) <= MAX_DISTANCE
}

/// The initial route, when given, is a permutation of the locations.
pub open spec fn init_route_ok(init_route: Option<Vec<usize>>, n: int) -> bool {
    match init_route {
        Some(r) => is_permutation(r@, n),
        None => true,
    }
}

/// Everything the validation demands of the raw inputs: a well-shaped
/// distance matrix within the capacity limits, admissible operating hours
/// and working days, well-shaped, ordered and bounded time tables whenever
/// time mode is requested, and an initial route that is a permutation.
pub open spec fn raw_inputs_ok(
    distance_matrix: Seq<Vec<u64>>,
    duration_matrix: Option<Vec<Vec<u64>>>,
    job_durations: Option<Vec<u64>>,
    time_windows: Option<Vec<Vec<(u64, u64)>>>,
    operation_times: Option<(u64, u64)>,
    working_days: Option<Vec<bool>>,
    init_route: Option<Vec<usize>>,
) -> bool {
    &&& distance_shape_ok(distance_matrix)
    &&& distance_bounds_ok(distance_matrix)
    &&& crate::time_input::op_bounds_ok(operation_times)
    &&& crate::time_input::wd_shape_ok(operation_times, working_days)
    &&& crate::time_input::wd_nonempty_ok(operation_times, working_days)
    &&& ((duration_matrix is Some && job_durations is Some && time_windows is Some) ==> {
        let dm = duration_matrix.unwrap();
        let jd = job_durations.unwrap();
        let tw = time_windows.unwrap();
        &&& crate::time_input::time_shape_ok(dm@, jd@, tw@)
        &&& crate::time_input::windows_order_ok(tw@)
        &&& crate::time_input::time_bounds_ok(dm@, jd@, tw@)
        &&& dm@.len() == distance_matrix.len()
    })
    &&& match init_route {
        Some(r) => is_permutation(r@, distance_matrix.len() as int),
        None => true,
    }
}

/// Whether a sequence is a permutation of `0..n`.
fn check_permutation(route: &Vec<usize>, n: usize) -> (r: bool)
    ensures
        r == is_permutation(route@, n as int),
{
    if route.len() != n {
        return false;
    }
    let mut seen: Vec<bool> = Vec::new();
    let mut d: usize = 0;
    while d < n
        invariant
            d <= n,
            seen@.len() == d,
            forall|x: int| 0 <= x < d ==> !(#[trigger] seen@[x]),
        decreases n - d,
    {
        seen.push(false);
        d += 1;
    }
    let mut k: usize = 0;
    while k < n
        invariant
            k <= n,
            route@.len() == n,
            seen@.len() == n,
            forall|x: int| 0 <= x < n ==> ((#[trigger] seen@[x]) <==> exists|p: int|
                0 <= p < k && route@[p] == x),
            forall|p: int| 0 <= p < k ==> (#[trigger] route@[p]) < n,
            forall|p: int, q: int| 0 <= p < q < k ==> route@[p] != route@[q],
        decreases n - k,
    {
        let v = route[k];
        if v >= n {
            return false;
        }
        if seen[v] {
            proof {
                let p = choose|p: int| 0 <= p < k && route@[p] == v as int;
                assert(route@[p] == route@[k as int]);
            }
            return false;
        }
        let ghost prev = seen@;
        seen.set(v, true);
        proof {
            assert(seen@ == prev.update(v as int, true));
            assert forall|x: int| 0 <= x < n implies ((#[trigger] seen@[x]) <==> exists|p: int|
                0 <= p < k + 1 && route@[p] == x) by {
                if x == v as int {
                    assert(route@[k as int] == x);
                } else {
                    assert(seen@[x] == prev[x]);
                    if seen@[x] {
                        let p = choose|p: int| 0 <= p < k && route@[p] == x;
                        assert(0 <= p < k + 1 && route@[p] == x);
                    }
                    if exists|p: int| 0 <= p < k + 1 && route@[p] == x {
                        let p = choose|p: int| 0 <= p < k + 1 && route@[p] == x;
                        assert(p < k);
                    }
                }
            }
            assert forall|p: int, q: int| 0 <= p < q < k + 1 implies route@[p] != route@[q] by {
                if q == k as int && route@[p] == route@[q] {
                    assert(prev[route@[p] as int]);
                }
            }
        }
        k += 1;
    }
    true
}

/// Validates every raw input and assembles the solver's input.  Each kind
/// of fault is rejected with its own error: shapes first, then window
/// order, then bounds, then the initial route.
pub fn get_input_from_raw(
    distance_matrix: Vec<Vec<u64>>,
    duration_matrix: Option<Vec<Vec<u64>>>,
    job_durations: Option<Vec<u64>>,
    time_windows: Option<Vec<Vec<(u64, u64)>>>,
    operation_times: Option<(u64, u64)>,
    working_days: Option<Vec<bool>>,
    travel_duration_until_break: Option<u64>,
    break_duration: Option<u64>,
    time_limit: Option<u64>,
    init_route: Option<Vec<usize>>,
) -> (r: Result<Input, SolverError>)
    ensures
        r is Ok <==> raw_inputs_ok(
            distance_matrix@,
            duration_matrix,
            job_durations,
            time_windows,
            operation_times,
            working_days,
            init_route,
        ),
        r matches Ok(input) ==> {
            &&& input.wf()
            &&& input.distance_matrix.matrix == distance_matrix
            &&& input.time_limit == time_limit
            &&& input.time_input.is_some() == (duration_matrix is Some && job_durations is Some
                && time_windows is Some)
            &&& input.init_route.is_some() == init_route.is_some()
            &&& match (init_route, input.init_route) {
                (Some(given), Some(r)) => r.sequence == given,
                (None, None) => true,
                _ => false,
            }
        },
        !distance_shape_ok(distance_matrix@) ==> r == Err::<Input, SolverError>(
            SolverError::ShapeError,
        ),
        distance_shape_ok(distance_matrix@) && !distance_bounds_ok(distance_matrix@) ==> r
            == Err::<Input, SolverError>(SolverError::BoundsError),
        ({
            let distance_ok = distance_shape_ok(distance_matrix@) && distance_bounds_ok(
                distance_matrix@,
            );
            let op_ok = crate::time_input::op_bounds_ok(operation_times)
                && crate::time_input::wd_shape_ok(operation_times, working_days)
                && crate::time_input::wd_nonempty_ok(operation_times, working_days);
            &&& (distance_ok && !crate::time_input::op_bounds_ok(operation_times) ==> r == Err::<
                Input,
                SolverError,
            >(SolverError::BoundsError))
            &&& (distance_ok && crate::time_input::op_bounds_ok(operation_times)
                && !crate::time_input::wd_shape_ok(operation_times, working_days) ==> r == Err::<
                Input,
                SolverError,
            >(SolverError::ShapeError))
            &&& (distance_ok && crate::time_input::op_bounds_ok(operation_times)
                && crate::time_input::wd_shape_ok(operation_times, working_days)
                && !crate::time_input::wd_nonempty_ok(operation_times, working_days) ==> r
                == Err::<Input, SolverError>(SolverError::BoundsError))
            &&& (distance_ok && op_ok && raw_inputs_ok(
                distance_matrix@,
                duration_matrix,
                job_durations,
                time_windows,
                operation_times,
                working_days,
                None,
            ) && !(match init_route {
                Some(ir) => is_permutation(ir@, distance_matrix@.len() as int),
                None => true,
            }) ==> r == Err::<Input, SolverError>(SolverError::RouteError))
        }),
{
    let n = distance_matrix.len();
    if n < 2 {
        return Err(SolverError::ShapeError);
    }
    let mut i: usize = 0;
    while i < n
        invariant
            i <= n,
            2 <= n == distance_matrix@.len(),
            forall|x: int| 0 <= x < i ==> (#[trigger] distance_matrix@[x])@.len() == n,
        decreases n - i,
    {
        if distance_matrix[i].len() != n {
            return Err(SolverError::ShapeError);
        }
        i += 1;
    }
    if n > MAX_LOCATIONS {
        return Err(SolverError::BoundsError);
    }
    let mut i: usize = 0;
    while i < n
        invariant
            i <= n,
            2 <= n == distance_matrix@.len(),
            n <= MAX_LOCATIONS,
            forall|x: int| 0 <= x < n ==> (#[trigger] distance_matrix@[x])@.len() == n,
            forall|x: int, y: int|
                0 <= x < i && 0 <= y < n ==> (#[trigger] distance_matrix@[x]@[y]) <= MAX_DISTANCE,
        decreases n - i,
    {
        let row = &distance_matrix[i];
        let mut j: usize = 0;
        while j < n
            invariant
                j <= n,
                i < n == distance_matrix@.len(),
                2 <= n <= MAX_LOCATIONS,
                forall|x: int| 0 <= x < n ==> (#[trigger] distance_matrix@[x])@.len() == n,
                row == &distance_matrix@[i as int],
                row@.len() == n,
                forall|y: int| 0 <= y < j ==> (#[trigger] row@[y]) <= MAX_DISTANCE,
            decreases n - j,
        {
            if row[j] > MAX_DISTANCE {
                return Err(SolverError::BoundsError);
            }
            j += 1;
        }
        i += 1;
    }
    let time_input = match transform(
        duration_matrix,
        job_durations,
        time_windows,
        operation_times,
        working_days,
        travel_duration_until_break,
        break_duration,
    ) {
        Ok(ti) => ti,
        Err(e) => {
            return Err(e);
        },
    };
    // The time tables must describe the same locations as the distances.
    match &time_input {
        Some(ti) => {
            if ti.duration_matrix.len() != n {
                return Err(SolverError::ShapeError);
            }
        },
        None => {},
    }
    let init = match init_route {
        Some(route) => {
            if !check_permutation(&route, n) {
                return Err(SolverError::RouteError);
            }
            Some(Route::new(route))
        },
        None => None,
    };
    let real_distance_matrix = DistanceMatrix::new(distance_matrix);
    Ok(Input::new(real_distance_matrix, time_input, time_limit, init))
}

} // verus!
