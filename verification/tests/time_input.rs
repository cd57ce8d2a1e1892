use chrono::{NaiveTime, TimeZone, Timelike, Utc};
use traveling_rustling::time_input::transform;

fn epoch_sec(v: i64) -> u64 {
    chrono::DateTime::from_timestamp(v, 0).unwrap().timestamp() as u64
}

fn day_number(y: i32, mo: u32, d: u32) -> u64 {
    (Utc.with_ymd_and_hms(y, mo, d, 0, 0, 0).unwrap().timestamp() / 86400) as u64
}

#[test]
fn test_transform() {
    let time_input = transform(
        Some(vec![vec![0, 1, 2], vec![1, 0, 3], vec![2, 3, 0]]),
        Some(vec![3, 3, 3]),
        Some(vec![
            vec![(1, 2), (3, 4)],
            vec![(5, 6), (7, 8)],
            vec![(9, 10), (11, 12)],
        ]),
        Some((8, 16)),
        Some(vec![true, true, true, false, false, true, false]),
        None,
        None,
    )
    .unwrap();
    assert!(time_input.is_some());
    let time_input = time_input.unwrap();
    assert_eq!(time_input.travel_time(0, 1), 1);
    assert_eq!(time_input.travel_time(1, 2), 3);
    assert_eq!(time_input.travel_time(2, 0), 2);
    assert_eq!(time_input.job_durations, vec![3; 3]);
    assert_eq!(time_input.time_windows.len(), 3);
    assert_eq!(time_input.time_windows[0].windows.len(), 2);
    assert_eq!(time_input.time_windows[1].windows.len(), 2);
    assert_eq!(time_input.time_windows[2].windows.len(), 2);
    assert_eq!(time_input.time_windows[0].windows[0].start, epoch_sec(1));
    assert_eq!(time_input.time_windows[0].windows[0].end, epoch_sec(2));
    assert_eq!(time_input.time_windows[0].windows[1].start, epoch_sec(3));
    assert_eq!(time_input.time_windows[0].windows[1].end, epoch_sec(4));
    assert_eq!(time_input.time_windows[1].windows[0].start, epoch_sec(5));
    assert_eq!(time_input.time_windows[1].windows[0].end, epoch_sec(6));
    assert_eq!(time_input.time_windows[1].windows[1].start, epoch_sec(7));
    assert_eq!(time_input.time_windows[1].windows[1].end, epoch_sec(8));
    assert_eq!(time_input.time_windows[2].windows[0].start, epoch_sec(9));
    assert_eq!(time_input.time_windows[2].windows[0].end, epoch_sec(10));
    assert_eq!(time_input.time_windows[2].windows[1].start, epoch_sec(11));
    assert_eq!(time_input.time_windows[2].windows[1].end, epoch_sec(12));
    let operation_times = time_input.operation_times.unwrap();
    assert_eq!(
        operation_times.start(),
        NaiveTime::from_hms_opt(0, 0, 8).unwrap().num_seconds_from_midnight() as u64
    );
    assert_eq!(
        operation_times.end(),
        NaiveTime::from_hms_opt(0, 0, 16).unwrap().num_seconds_from_midnight() as u64
    );
    // Working days are Mon, Tue, Wed and Sat
    // Mon -> Tue
    assert_eq!(
        operation_times.next_day(Utc.with_ymd_and_hms(2024, 1, 1, 0, 0, 0).unwrap().timestamp()
            as u64),
        day_number(2024, 1, 2)
    );
    // Tue -> Wed
    assert_eq!(
        operation_times.next_day(Utc.with_ymd_and_hms(2024, 1, 2, 0, 0, 0).unwrap().timestamp()
            as u64),
        day_number(2024, 1, 3)
    );
    // Wed -> Sat
    assert_eq!(
        operation_times.next_day(Utc.with_ymd_and_hms(2024, 1, 3, 0, 0, 0).unwrap().timestamp()
            as u64),
        day_number(2024, 1, 6)
    );
    // Thu -> Sat
    assert_eq!(
        operation_times.next_day(Utc.with_ymd_and_hms(2024, 1, 4, 0, 0, 0).unwrap().timestamp()
            as u64),
        day_number(2024, 1, 6)
    );
    // Fri -> Sat
    assert_eq!(
        operation_times.next_day(Utc.with_ymd_and_hms(2024, 1, 5, 0, 0, 0).unwrap().timestamp()
            as u64),
        day_number(2024, 1, 6)
    );
    // Sat -> Mon
    assert_eq!(
        operation_times.next_day(Utc.with_ymd_and_hms(2024, 1, 6, 0, 0, 0).unwrap().timestamp()
            as u64),
        day_number(2024, 1, 8)
    );
    assert_eq!(
        operation_times.next_day(Utc.with_ymd_and_hms(2024, 1, 7, 0, 0, 0).unwrap().timestamp()
            as u64),
        day_number(2024, 1, 8)
    );
}
