use neos_proxy::time::{is_cache_time_valid, Timestamp};

fn ts(year: u16, month: u8, day: u8, hour: u8, minute: u8, second: u8) -> Timestamp {
    Timestamp { year, month, day, hour, minute, second }
}

#[test]
fn same_month_entry_is_valid() {
    let cached = ts(2021, 6, 15, 10, 0, 0);
    let now = ts(2021, 6, 20, 18, 30, 0);
    assert!(is_cache_time_valid(&cached, &now));
}

#[test]
fn month_rollover_invalidates() {
    let cached = ts(2021, 6, 15, 10, 0, 0);
    let now = ts(2021, 7, 20, 12, 0, 0);
    assert!(!is_cache_time_valid(&cached, &now));
}

#[test]
fn year_rollover_invalidates() {
    let cached = ts(2021, 12, 31, 23, 59, 59);
    let now = ts(2022, 1, 15, 0, 0, 0);
    assert!(!is_cache_time_valid(&cached, &now));
}

#[test]
fn day_28_to_day_2_of_next_month_invalidates() {
    // The calendar-month rule already fires here, whatever the six-hour rule
    // would have said.
    let cached = ts(2021, 5, 28, 0, 0, 0);
    let now = ts(2021, 6, 2, 5, 0, 0);
    assert!(!is_cache_time_valid(&cached, &now));
}

#[test]
fn early_month_six_hour_boundary() {
    // Same calendar month, day 2: exactly six hours is still valid, one
    // second past six hours is not.
    let cached = ts(2021, 7, 1, 22, 0, 0);
    let at_six_hours = ts(2021, 7, 2, 4, 0, 0);
    assert!(is_cache_time_valid(&cached, &at_six_hours));
    let past_six_hours = ts(2021, 7, 2, 4, 0, 1);
    assert!(!is_cache_time_valid(&cached, &past_six_hours));
}

#[test]
fn six_hour_rule_sleeps_after_day_four() {
    let cached = ts(2021, 7, 5, 1, 0, 0);
    let now = ts(2021, 7, 5, 23, 0, 0);
    assert!(is_cache_time_valid(&cached, &now));
    let day_four = ts(2021, 7, 4, 23, 0, 0);
    let cached_day_four = ts(2021, 7, 4, 1, 0, 0);
    assert!(!is_cache_time_valid(&cached_day_four, &day_four));
}

#[test]
fn absolute_seconds_of_epoch_day() {
    let epoch = ts(1970, 1, 1, 0, 0, 0);
    assert_eq!(epoch.to_abs_secs(), 719528i64 * 86400);
}

#[test]
fn absolute_seconds_differences() {
    let a = ts(2021, 2, 28, 23, 0, 0);
    let b = ts(2021, 3, 1, 0, 0, 0);
    assert_eq!(b.to_abs_secs() - a.to_abs_secs(), 3600);
    let c = ts(2020, 2, 28, 0, 0, 0);
    let d = ts(2020, 3, 1, 0, 0, 0);
    assert_eq!(d.to_abs_secs() - c.to_abs_secs(), 2 * 86400);
}
