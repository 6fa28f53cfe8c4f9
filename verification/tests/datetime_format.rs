use srm::datetime::{days_in_month, is_leap_year, parse_timestamp, render_timestamp, ts_seconds,
    Timestamp};

fn ts(year: u64, month: u64, day: u64, hour: u64, minute: u64, second: u64) -> Timestamp {
    Timestamp { year, month, day, hour, minute, second }
}

#[test]
fn renders_zero_padded() {
    let t = ts(2026, 1, 2, 3, 4, 5);
    assert_eq!(render_timestamp(&t), "2026-01-02 03:04:05");
    let t = ts(999, 12, 31, 23, 59, 59);
    assert_eq!(render_timestamp(&t), "0999-12-31 23:59:59");
}

#[test]
fn parse_inverts_render() {
    let t = ts(2026, 10, 9, 18, 30, 0);
    let text = render_timestamp(&t);
    assert_eq!(parse_timestamp(&text), Some(t));
}

#[test]
fn parse_rejects_malformed_text() {
    assert_eq!(parse_timestamp(""), None);
    assert_eq!(parse_timestamp("2026-01-02"), None);
    assert_eq!(parse_timestamp("2026-01-02 03:04:0x"), None);
    assert_eq!(parse_timestamp("2026/01/02 03:04:05"), None);
    assert_eq!(parse_timestamp("2026-01-02 03:04:05 "), None);
}

#[test]
fn parse_rejects_out_of_range_fields() {
    assert_eq!(parse_timestamp("2026-13-01 00:00:00"), None);
    assert_eq!(parse_timestamp("2026-00-01 00:00:00"), None);
    assert_eq!(parse_timestamp("2026-01-32 00:00:00"), None);
    assert_eq!(parse_timestamp("2026-01-00 00:00:00"), None);
    assert_eq!(parse_timestamp("2026-01-01 24:00:00"), None);
    assert_eq!(parse_timestamp("2026-01-01 00:60:00"), None);
    assert_eq!(parse_timestamp("2026-01-01 00:00:60"), None);
    assert_eq!(parse_timestamp("0000-01-01 00:00:00"), None);
}

#[test]
fn parse_knows_the_calendar() {
    assert!(parse_timestamp("2024-02-29 12:00:00").is_some());
    assert_eq!(parse_timestamp("2023-02-29 12:00:00"), None);
    assert!(parse_timestamp("2026-04-30 12:00:00").is_some());
    assert_eq!(parse_timestamp("2026-04-31 12:00:00"), None);
}

#[test]
fn leap_year_rule() {
    assert!(is_leap_year(2024));
    assert!(!is_leap_year(2023));
    assert!(!is_leap_year(1900));
    assert!(is_leap_year(2000));
    assert_eq!(days_in_month(2024, 2), 29);
    assert_eq!(days_in_month(2023, 2), 28);
    assert_eq!(days_in_month(2026, 9), 30);
    assert_eq!(days_in_month(2026, 8), 31);
}

#[test]
fn seconds_count_days_and_time() {
    let a = ts(2026, 3, 1, 0, 0, 0);
    let b = ts(2026, 3, 2, 0, 0, 0);
    assert_eq!(ts_seconds(&b) - ts_seconds(&a), 86400);
    let c = ts(2026, 3, 1, 1, 2, 3);
    assert_eq!(ts_seconds(&c) - ts_seconds(&a), 3600 + 2 * 60 + 3);
    // Across the leap day.
    let d = ts(2024, 2, 28, 0, 0, 0);
    let e = ts(2024, 3, 1, 0, 0, 0);
    assert_eq!(ts_seconds(&e) - ts_seconds(&d), 2 * 86400);
}
