use traveling_rustling::distance::{DistanceMatrix, DistancePenalizer};
use traveling_rustling::input::{get_input_from_raw, SolverError};
use traveling_rustling::local_moves;
use traveling_rustling::operation_times::OperationTimes;
use traveling_rustling::penalizer::Penalizer;
use traveling_rustling::route::Route;
use traveling_rustling::solve;
use traveling_rustling::time::TimePenalizer;
use traveling_rustling::time_input::TimeInput;
use traveling_rustling::time_output::Event;
use traveling_rustling::time_windows::{TimeWindow, TimeWindows};

#[test]
fn test_split_detection() {
    // One location whose nine-hour job cannot fit one eight-hour day.
    let time_input = TimeInput {
        duration_matrix: vec![vec![0]],
        job_durations: vec![9 * 3600],
        time_windows: vec![TimeWindows::new(vec![TimeWindow::new(0, 2_000_000)])],
        operation_times: Some(OperationTimes::new(8 * 3600, 16 * 3600, None)),
        travel_duration_until_break: None,
        break_duration: None,
    };
    let penalizer = TimePenalizer::new(time_input);
    let route = Route::new(vec![0]);
    let report = penalizer.penalize(&route, true);
    assert_eq!(report.job_splits, 1);
    assert_eq!(report.working_time, 9 * 3600);
    assert_eq!(report.lateness, 0);
    // The accumulators balance.
    assert_eq!(
        report.duration,
        report.waiting_time + report.working_time + report.traveling_time
    );
    assert_eq!(report.end_time, report.start_time + report.duration);
    // Every work interval lies inside the eight-hour day.
    for event in &report.schedule {
        if let Event::Work(w, _) = event {
            assert!(w.start % 86400 >= 8 * 3600);
            assert!(w.end % 86400 <= 16 * 3600);
        }
    }
}

#[test]
fn test_full_day_hours_collapse() {
    // Hours spanning a whole day impose no restriction: no waiting at all.
    let out = solve(
        vec![vec![0, 5], vec![7, 0]],
        Some(vec![vec![0, 60], vec![60, 0]]),
        Some(vec![30, 30]),
        Some(vec![vec![(100, 10_000)], vec![(100, 10_000)]]),
        Some((0, 86400)),
        None,
        None,
        None,
        None,
        Some(vec![0, 1]),
    )
    .unwrap();
    let report = out.solution.time_report.unwrap();
    assert_eq!(report.waiting_time, 0);
    assert_eq!(report.working_time, 60);
    assert_eq!(report.traveling_time, 120);
    assert_eq!(report.duration, 180);
}

#[test]
fn test_validation_errors() {
    // A ragged distance matrix.
    let ragged = solve(
        vec![vec![0, 1], vec![1]],
        None,
        None,
        None,
        None,
        None,
        None,
        None,
        None,
        None,
    );
    assert!(matches!(ragged, Err(SolverError::ShapeError)));
    // Overlapping windows.
    let overlapping = get_input_from_raw(
        vec![vec![0, 1], vec![1, 0]],
        Some(vec![vec![0, 1], vec![1, 0]]),
        Some(vec![1, 1]),
        Some(vec![vec![(0, 10), (5, 20)], vec![(0, 10)]]),
        None,
        None,
        None,
        None,
        None,
        None,
    );
    assert!(matches!(overlapping, Err(SolverError::OrderError)));
    // Inverted daily hours.
    let inverted = get_input_from_raw(
        vec![vec![0, 1], vec![1, 0]],
        None,
        None,
        None,
        Some((16 * 3600, 8 * 3600)),
        None,
        None,
        None,
        None,
        None,
    );
    assert!(matches!(inverted, Err(SolverError::BoundsError)));
    // No working day set.
    let no_days = get_input_from_raw(
        vec![vec![0, 1], vec![1, 0]],
        None,
        None,
        None,
        Some((8 * 3600, 16 * 3600)),
        Some(vec![false; 7]),
        None,
        None,
        None,
        None,
    );
    assert!(matches!(no_days, Err(SolverError::BoundsError)));
    // An initial route that repeats a location.
    let repeated = get_input_from_raw(
        vec![vec![0, 1, 2], vec![1, 0, 1], vec![2, 1, 0]],
        None,
        None,
        None,
        None,
        None,
        None,
        None,
        None,
        Some(vec![0, 0, 1]),
    );
    assert!(matches!(repeated, Err(SolverError::RouteError)));
}

#[test]
fn test_move_involutions() {
    // Reversing a slice twice restores the route.
    let mut route = Route::new(vec![0, 1, 2, 3, 4]);
    local_moves::two_opt(&mut route, 1, 3);
    assert_eq!(route.sequence, vec![0, 3, 2, 1, 4]);
    local_moves::two_opt(&mut route, 1, 3);
    assert_eq!(route.sequence, vec![0, 1, 2, 3, 4]);
    // Exchanging the same positions twice restores the route.
    local_moves::swap(&mut route, 0, 4);
    assert_eq!(route.sequence, vec![4, 1, 2, 3, 0]);
    local_moves::swap(&mut route, 0, 4);
    assert_eq!(route.sequence, vec![0, 1, 2, 3, 4]);
    // A left shift and the matching right shift cancel.
    local_moves::one_shift_left(&mut route, 1, 3);
    assert_eq!(route.sequence, vec![0, 3, 1, 2, 4]);
    local_moves::one_shift_right(&mut route, 1, 3);
    assert_eq!(route.sequence, vec![0, 1, 2, 3, 4]);
    local_moves::two_shift_left(&mut route, 0, 3);
    assert_eq!(route.sequence, vec![2, 3, 0, 1, 4]);
    local_moves::two_shift_right(&mut route, 0, 3);
    assert_eq!(route.sequence, vec![0, 1, 2, 3, 4]);
    local_moves::three_shift_left(&mut route, 0, 4);
    assert_eq!(route.sequence, vec![2, 3, 4, 0, 1]);
    local_moves::three_shift_right(&mut route, 0, 4);
    assert_eq!(route.sequence, vec![0, 1, 2, 3, 4]);
}

#[test]
fn test_distance_rotation_and_reversal() {
    // Rotating a cyclic route never changes its distance.
    let asymmetric = DistanceMatrix::new(vec![
        vec![0, 2, 9],
        vec![7, 0, 3],
        vec![4, 8, 0],
    ]);
    let penalizer = DistancePenalizer::new(asymmetric);
    let d012 = penalizer.penalize(&Route::new(vec![0, 1, 2]));
    let d120 = penalizer.penalize(&Route::new(vec![1, 2, 0]));
    let d201 = penalizer.penalize(&Route::new(vec![2, 0, 1]));
    assert_eq!(d012, d120);
    assert_eq!(d012, d201);
    // Reversal keeps the distance only when the matrix is symmetric.
    let d210 = penalizer.penalize(&Route::new(vec![2, 1, 0]));
    assert_ne!(d012, d210);
    let symmetric = DistanceMatrix::new(vec![
        vec![0, 2, 9],
        vec![2, 0, 3],
        vec![9, 3, 0],
    ]);
    let penalizer = DistancePenalizer::new(symmetric);
    let s012 = penalizer.penalize(&Route::new(vec![0, 1, 2]));
    let s210 = penalizer.penalize(&Route::new(vec![2, 1, 0]));
    assert_eq!(s012, s210);
}

#[test]
fn test_is_better_distance_only() {
    let matrix = DistanceMatrix::new(vec![vec![0, 1, 9], vec![9, 0, 1], vec![1, 9, 0]]);
    let penalizer = Penalizer::new(DistancePenalizer::new(matrix), None);
    let short = penalizer.penalize(Route::new(vec![0, 1, 2]), false);
    let long = penalizer.penalize(Route::new(vec![0, 2, 1]), false);
    assert!(short.distance < long.distance);
    assert!(penalizer.is_better(&short, &long));
    assert!(!penalizer.is_better(&long, &short));
    assert!(!penalizer.is_better(&short, &short));
}

#[test]
fn test_solve_with_time_inputs() {
    let out = solve(
        vec![vec![0, 1, 2], vec![1, 0, 3], vec![2, 3, 0]],
        Some(vec![vec![0, 60, 120], vec![60, 0, 180], vec![120, 180, 0]]),
        Some(vec![600, 600, 600]),
        Some(vec![
            vec![(1000, 100_000)],
            vec![(1000, 100_000)],
            vec![(1000, 100_000)],
        ]),
        Some((6 * 3600, 18 * 3600)),
        Some(vec![true; 7]),
        None,
        None,
        None,
        None,
    )
    .unwrap();
    // The result is a tour over all three locations.
    let mut visited = vec![false; 3];
    for &loc in &out.solution.route.sequence {
        visited[loc] = true;
    }
    assert!(visited.iter().all(|&v| v));
    assert!(out.iterations >= 1);
    let report = out.solution.time_report.unwrap();
    assert_eq!(report.working_time, 1800);
}

#[test]
fn test_feasible_work_inside_windows() {
    // A feasible run: every work interval starts inside a window of its
    // location.
    let time_input = TimeInput {
        duration_matrix: vec![vec![0, 600], vec![600, 0]],
        job_durations: vec![1800, 1800],
        time_windows: vec![
            TimeWindows::new(vec![TimeWindow::new(100_000, 200_000)]),
            TimeWindows::new(vec![TimeWindow::new(100_000, 200_000)]),
        ],
        operation_times: None,
        travel_duration_until_break: None,
        break_duration: None,
    };
    let penalizer = TimePenalizer::new(time_input);
    let report = penalizer.penalize(&Route::new(vec![0, 1]), true);
    assert_eq!(report.job_splits, 0);
    assert_eq!(report.lateness, 0);
    let mut works = 0;
    for event in &report.schedule {
        if let Event::Work(w, _) = event {
            assert!(100_000 <= w.start && w.start <= 200_000);
            works += 1;
        }
    }
    assert_eq!(works, 2);
    assert_eq!(report.working_time, 3600);
    assert_eq!(report.traveling_time, 1200);
}

#[test]
fn test_best_sequence_accessor() {
    let matrix = DistanceMatrix::new(vec![vec![0, 2, 1], vec![40, 0, 30], vec![600, 500, 0]]);
    let input = traveling_rustling::input::Input::new(matrix, None, None, None);
    let mut solver = traveling_rustling::solver::Solver::new(input);
    solver.solve();
    assert_eq!(solver.get_best_sequence(), solver.best_solution.route.sequence);
    assert_eq!(solver.get_best_sequence(), vec![1, 0, 2]);
}

#[test]
fn test_capacity_limits() {
    // A window past the input horizon is rejected.
    let horizon = get_input_from_raw(
        vec![vec![0, 1], vec![1, 0]],
        Some(vec![vec![0, 1], vec![1, 0]]),
        Some(vec![1, 1]),
        Some(vec![vec![(0, 10)], vec![(0, 1 << 41)]]),
        None,
        None,
        None,
        None,
        None,
        None,
    );
    assert!(matches!(horizon, Err(SolverError::BoundsError)));
    // A combined duration budget past the cap is rejected.
    let budget = get_input_from_raw(
        vec![vec![0, 1], vec![1, 0]],
        Some(vec![vec![0, 1 << 31], vec![1 << 31, 0]]),
        Some(vec![1, 1]),
        Some(vec![vec![(0, 10)], vec![(0, 10)]]),
        None,
        None,
        None,
        None,
        None,
        None,
    );
    assert!(matches!(budget, Err(SolverError::BoundsError)));
}
