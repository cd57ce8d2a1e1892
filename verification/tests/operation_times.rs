use chrono::{NaiveTime, TimeZone, Timelike, Utc};
use traveling_rustling::operation_times::OperationTimes;
use traveling_rustling::time_windows::TimeWindow;

fn moment(y: i32, mo: u32, d: u32, h: u32, mi: u32, s: u32) -> u64 {
    Utc.with_ymd_and_hms(y, mo, d, h, mi, s).unwrap().timestamp() as u64
}

fn day_time(h: u32, mi: u32, s: u32) -> u64 {
    NaiveTime::from_hms_opt(h, mi, s).unwrap().num_seconds_from_midnight() as u64
}

// Test for checking the general features of the OperationTimes struct
#[test]
fn test_operation_times() {
    let operation_times = OperationTimes::new(day_time(8, 0, 0), day_time(16, 0, 0), None);
    assert_eq!(operation_times.start(), day_time(8, 0, 0));
    assert_eq!(operation_times.end(), day_time(16, 0, 0));
    assert_eq!(
        operation_times.duration(),
        chrono::Duration::hours(8).num_seconds() as u64
    );
    assert!(!operation_times.contains(moment(2021, 1, 1, 7, 0, 0)));
    assert!(operation_times.contains(moment(2021, 1, 1, 8, 0, 0)));
    assert!(operation_times.contains(moment(2021, 1, 1, 10, 0, 0)));
    assert!(!operation_times.contains(moment(2021, 1, 1, 16, 0, 0)));
    assert!(!operation_times.contains(moment(2021, 1, 1, 17, 0, 0)));
    assert_eq!(
        operation_times.waiting_time(moment(2021, 1, 1, 7, 0, 0)),
        chrono::Duration::hours(1).num_seconds() as u64
    );
    assert_eq!(operation_times.waiting_time(moment(2021, 1, 1, 8, 0, 0)), 0);
    assert_eq!(
        operation_times.waiting_time(moment(2021, 1, 1, 16, 0, 0)),
        chrono::Duration::hours(16).num_seconds() as u64
    );
    assert_eq!(
        operation_times.waiting_time(moment(2021, 1, 1, 17, 0, 0)),
        chrono::Duration::hours(15).num_seconds() as u64
    );
}

// testing find_next_fitting_time with must_fit = false
#[test]
fn test_find_next_fitting_time_no_must_fit() {
    let operation_times = OperationTimes::new(day_time(8, 0, 0), day_time(16, 0, 0), None);
    let job_duration = chrono::TimeDelta::hours(2).num_seconds() as u64;
    let current_time = moment(2021, 1, 1, 8, 0, 0);
    let result = operation_times.find_next_fitting_time(current_time, job_duration, false);
    assert_eq!(
        result,
        Some(TimeWindow::new(
            moment(2021, 1, 1, 8, 0, 0),
            moment(2021, 1, 1, 10, 0, 0)
        ))
    );
    let current_time = moment(2021, 1, 1, 7, 0, 0);
    let result = operation_times.find_next_fitting_time(current_time, job_duration, false);
    assert_eq!(
        result,
        Some(TimeWindow::new(
            moment(2021, 1, 1, 8, 0, 0),
            moment(2021, 1, 1, 10, 0, 0)
        ))
    );
    let current_time = moment(2021, 1, 1, 15, 0, 0);
    let result = operation_times.find_next_fitting_time(current_time, job_duration, false);
    assert_eq!(
        result,
        Some(TimeWindow::new(
            moment(2021, 1, 1, 15, 0, 0),
            moment(2021, 1, 1, 16, 0, 0)
        ))
    );
    let current_time = moment(2021, 1, 1, 16, 0, 0);
    let result = operation_times.find_next_fitting_time(current_time, job_duration, false);
    assert_eq!(
        result,
        Some(TimeWindow::new(
            moment(2021, 1, 2, 8, 0, 0),
            moment(2021, 1, 2, 10, 0, 0)
        ))
    );
}

// testing find_next_fitting_time with must_fit = true
#[test]
fn test_find_next_fitting_time_must_fit() {
    let operation_times = OperationTimes::new(day_time(8, 0, 0), day_time(16, 0, 0), None);
    let job_duration = chrono::TimeDelta::hours(2).num_seconds() as u64;

    // job too early
    let current_time = moment(2021, 1, 1, 7, 0, 0);
    let result = operation_times.find_next_fitting_time(current_time, job_duration, true);
    assert_eq!(
        result,
        Some(TimeWindow::new(
            moment(2021, 1, 1, 8, 0, 0),
            moment(2021, 1, 1, 10, 0, 0)
        ))
    );
    // job inside time window
    let current_time = moment(2021, 1, 1, 9, 0, 0);
    let result = operation_times.find_next_fitting_time(current_time, job_duration, true);
    assert_eq!(
        result,
        Some(TimeWindow::new(
            moment(2021, 1, 1, 9, 0, 0),
            moment(2021, 1, 1, 11, 0, 0)
        ))
    );
    // because complete job must fit, it will jump to the next day
    let current_time = moment(2021, 1, 1, 15, 0, 0);
    let result = operation_times.find_next_fitting_time(current_time, job_duration, true);
    assert_eq!(
        result,
        Some(TimeWindow::new(
            moment(2021, 1, 2, 8, 0, 0),
            moment(2021, 1, 2, 10, 0, 0)
        ))
    );
    // creating a job that does never fit
    let current_time = moment(2021, 1, 1, 15, 0, 0);
    let job_duration = chrono::TimeDelta::hours(9).num_seconds() as u64;
    let result = operation_times.find_next_fitting_time(current_time, job_duration, true);
    assert!(result.is_none());
}
