use chrono::{NaiveTime, TimeZone, Timelike, Utc};
use traveling_rustling::distance::{DistanceMatrix, DistancePenalizer};
use traveling_rustling::operation_times::OperationTimes;
use traveling_rustling::penalizer::Penalizer;
use traveling_rustling::route::Route;
use traveling_rustling::time::TimePenalizer;
use traveling_rustling::time_input::TimeInput;
use traveling_rustling::time_output::Event;
use traveling_rustling::time_windows::{TimeWindow, TimeWindows};

fn at(y: i32, mo: u32, d: u32, h: u32, mi: u32, s: u32) -> u64 {
    Utc.with_ymd_and_hms(y, mo, d, h, mi, s).unwrap().timestamp() as u64
}

fn hours(h: i64) -> u64 {
    chrono::Duration::hours(h).num_seconds() as u64
}

fn clock(h: u32) -> u64 {
    NaiveTime::from_hms_opt(h, 0, 0).unwrap().num_seconds_from_midnight() as u64
}

#[test]
fn test_penalizer() {
    let distance_matrix = DistanceMatrix::new(vec![vec![0, 1, 2], vec![1, 0, 3], vec![2, 3, 0]]);
    let time_input = Some(TimeInput {
        job_durations: vec![hours(3); 3],
        time_windows: vec![
            TimeWindows::new(vec![
                TimeWindow::new(at(2021, 1, 1, 6, 0, 0), at(2021, 1, 1, 12, 0, 0)),
                TimeWindow::new(at(2021, 1, 2, 6, 0, 0), at(2021, 1, 2, 12, 0, 0)),
            ]),
            TimeWindows::new(vec![
                TimeWindow::new(at(2021, 1, 1, 6, 0, 0), at(2021, 1, 1, 12, 0, 0)),
                TimeWindow::new(at(2021, 1, 2, 6, 0, 0), at(2021, 1, 2, 12, 0, 0)),
            ]),
            TimeWindows::new(vec![
                TimeWindow::new(at(2021, 1, 1, 6, 0, 0), at(2021, 1, 1, 12, 0, 0)),
                TimeWindow::new(at(2021, 1, 2, 6, 0, 0), at(2021, 1, 2, 12, 0, 0)),
            ]),
        ],
        operation_times: Some(OperationTimes::new(clock(8), clock(16), None)),
        duration_matrix: vec![
            vec![hours(0), hours(1), hours(2)],
            vec![hours(1), hours(0), hours(3)],
            vec![hours(2), hours(3), hours(0)],
        ],
        travel_duration_until_break: None,
        break_duration: None,
    });
    let distance_penalizer = DistancePenalizer::new(distance_matrix);
    let time_penalizer = TimePenalizer::new(time_input.unwrap());
    let penalizer = Penalizer::new(distance_penalizer, Some(time_penalizer));
    let route = Route::new(vec![0, 1, 2]);
    let solution = penalizer.penalize(route, true);
    assert_eq!(solution.distance, 6);
    let time_report = solution.time_report.unwrap();
    assert_eq!(time_report.start_time, at(2021, 1, 1, 6, 0, 0));
    assert_eq!(time_report.end_time, at(2021, 1, 3, 13, 0, 0));
    assert_eq!(time_report.duration, hours(55));
    assert_eq!(time_report.waiting_time, hours(40));
    assert_eq!(time_report.working_time, hours(9));
    assert_eq!(time_report.traveling_time, hours(6));
    assert_eq!(time_report.lateness, hours(23));
    assert_eq!(time_report.schedule.len(), 9);
    assert_eq!(
        time_report.schedule[0],
        Event::Wait(TimeWindow::new(at(2021, 1, 1, 6, 0, 0), at(2021, 1, 1, 8, 0, 0)))
    );
    assert_eq!(
        time_report.schedule[1],
        Event::Work(
            TimeWindow::new(at(2021, 1, 1, 8, 0, 0), at(2021, 1, 1, 11, 0, 0)),
            0
        )
    );
    assert_eq!(
        time_report.schedule[2],
        Event::Travel(TimeWindow::new(at(2021, 1, 1, 11, 0, 0), at(2021, 1, 1, 12, 0, 0)))
    );
    assert_eq!(
        time_report.schedule[3],
        Event::Wait(TimeWindow::new(at(2021, 1, 1, 12, 0, 0), at(2021, 1, 2, 8, 0, 0)))
    );
    assert_eq!(
        time_report.schedule[4],
        Event::Work(
            TimeWindow::new(at(2021, 1, 2, 8, 0, 0), at(2021, 1, 2, 11, 0, 0)),
            1
        )
    );
    assert_eq!(
        time_report.schedule[5],
        Event::Travel(TimeWindow::new(at(2021, 1, 2, 11, 0, 0), at(2021, 1, 2, 14, 0, 0)))
    );
    assert_eq!(
        time_report.schedule[6],
        Event::Wait(TimeWindow::new(at(2021, 1, 2, 14, 0, 0), at(2021, 1, 3, 8, 0, 0)))
    );
    assert_eq!(
        time_report.schedule[7],
        Event::Work(
            TimeWindow::new(at(2021, 1, 3, 8, 0, 0), at(2021, 1, 3, 11, 0, 0)),
            2,
        )
    );
    assert_eq!(
        time_report.schedule[8],
        Event::Travel(TimeWindow::new(at(2021, 1, 3, 11, 0, 0), at(2021, 1, 3, 13, 0, 0)))
    );
}

#[test]
fn test_is_better() {
    let distance_matrix = DistanceMatrix::new(vec![vec![0, 1, 2], vec![1, 0, 3], vec![2, 3, 0]]);
    let time_input = Some(TimeInput {
        job_durations: vec![hours(3); 3],
        time_windows: vec![
            TimeWindows::new(vec![
                TimeWindow::new(at(2021, 1, 1, 6, 0, 0), at(2021, 1, 1, 12, 0, 0)),
                TimeWindow::new(at(2021, 1, 3, 6, 0, 0), at(2021, 1, 3, 12, 0, 0)),
            ]),
            TimeWindows::new(vec![
                TimeWindow::new(at(2021, 1, 1, 6, 0, 0), at(2021, 1, 1, 12, 0, 0)),
                TimeWindow::new(at(2021, 1, 2, 6, 0, 0), at(2021, 1, 2, 12, 0, 0)),
            ]),
            TimeWindows::new(vec![TimeWindow::new(
                at(2021, 1, 1, 6, 0, 0),
                at(2021, 1, 1, 12, 0, 0),
            )]),
        ],
        operation_times: Some(OperationTimes::new(clock(8), clock(16), None)),
        duration_matrix: vec![
            vec![hours(0), hours(1), hours(2)],
            vec![hours(1), hours(0), hours(3)],
            vec![hours(2), hours(3), hours(0)],
        ],
        travel_duration_until_break: None,
        break_duration: None,
    });
    let distance_penalizer = DistancePenalizer::new(distance_matrix);
    let time_penalizer = TimePenalizer::new(time_input.unwrap());
    let penalizer = Penalizer::new(distance_penalizer, Some(time_penalizer));
    let route1 = Route::new(vec![0, 1, 2]);
    let route2 = Route::new(vec![2, 1, 0]);
    let solution1 = penalizer.penalize(route1, true);
    let solution2 = penalizer.penalize(route2, true);
    assert!(penalizer.is_better(&solution2, &solution1));
}
