use chrono::{TimeZone, Utc};
use traveling_rustling::time_windows::{TimeWindow, TimeWindows};

fn instant(y: i32, mo: u32, d: u32, h: u32, mi: u32, s: u32) -> u64 {
    Utc.with_ymd_and_hms(y, mo, d, h, mi, s).unwrap().timestamp() as u64
}

// test basic functionality of TimeWindow
#[test]
fn test_time_window() {
    let start = instant(2021, 1, 1, 1, 0, 0);
    let end = instant(2021, 1, 1, 2, 0, 0);
    let time_window = TimeWindow::new(start, end);
    assert!(!time_window.contains(instant(2021, 1, 1, 0, 30, 0)));
    assert!(time_window.contains(instant(2021, 1, 1, 1, 0, 0)));
    assert!(time_window.contains(instant(2021, 1, 1, 1, 30, 0)));
    assert!(time_window.contains(instant(2021, 1, 1, 2, 0, 0)));
    assert!(!time_window.contains(instant(2021, 1, 1, 2, 30, 0)));
    assert_eq!(time_window.lateness(instant(2021, 1, 1, 0, 30, 0)), 0);
    assert_eq!(time_window.lateness(instant(2021, 1, 1, 1, 00, 0)), 0);
    assert_eq!(time_window.lateness(instant(2021, 1, 1, 1, 30, 0)), 0);
    assert_eq!(time_window.lateness(instant(2021, 1, 1, 2, 0, 0)), 0);
    assert_eq!(
        time_window.lateness(instant(2021, 1, 1, 2, 30, 0)),
        chrono::Duration::minutes(30).num_seconds() as u64
    );
}

#[test]
fn test_time_windows() {
    let mut time_windows = TimeWindows::new(vec![]);
    let start1 = instant(2021, 1, 1, 1, 0, 0);
    let end1 = instant(2021, 1, 1, 2, 0, 0);
    let time_window1 = TimeWindow::new(start1, end1);
    let start2 = instant(2021, 1, 1, 3, 0, 0);
    let end2 = instant(2021, 1, 1, 5, 0, 0);
    let time_window2 = TimeWindow::new(start2, end2);
    time_windows.add_window(time_window1);
    time_windows.add_window(time_window2);
    assert_eq!(time_windows.len(), 2);

    let hour = chrono::Duration::hours(1).num_seconds() as u64;
    let result = time_windows.find_next_fitting_time(instant(2021, 1, 1, 0, 0, 0), hour, true);
    assert_eq!(
        result,
        Some(TimeWindow::new(
            instant(2021, 1, 1, 1, 0, 0),
            instant(2021, 1, 1, 2, 0, 0)
        ))
    );
    let result = time_windows.find_next_fitting_time(instant(2021, 1, 1, 0, 0, 0), 2 * hour, true);
    assert_eq!(
        result,
        Some(TimeWindow::new(
            instant(2021, 1, 1, 3, 0, 0),
            instant(2021, 1, 1, 5, 0, 0)
        ))
    );
    let result = time_windows.find_next_fitting_time(instant(2021, 1, 1, 0, 0, 0), 3 * hour, true);
    assert_eq!(result, None);

    let result = time_windows.find_next_fitting_time(instant(2021, 1, 1, 0, 0, 0), 2 * hour, false);
    assert_eq!(
        result,
        Some(TimeWindow::new(
            instant(2021, 1, 1, 1, 0, 0),
            instant(2021, 1, 1, 2, 0, 0)
        ))
    );
    let result = time_windows.find_next_fitting_time(instant(2021, 1, 1, 2, 0, 0), 3 * hour, false);
    assert_eq!(
        result,
        Some(TimeWindow::new(
            instant(2021, 1, 1, 3, 0, 0),
            instant(2021, 1, 1, 5, 0, 0)
        ))
    );
    let result = time_windows.find_next_fitting_time(instant(2021, 1, 2, 0, 0, 0), 3 * hour, false);
    assert_eq!(result, None);
}
