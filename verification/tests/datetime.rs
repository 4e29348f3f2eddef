use ui_kit::datetime::{day_of_week, month_name, days_in_month, format_datetime, is_leap_year, next_month, parse_datetime, previous_month};

#[test]
fn leap_years_follow_the_gregorian_rule() {
    assert!(is_leap_year(2024));
    assert!(!is_leap_year(2023));
    assert!(!is_leap_year(1900));
    assert!(is_leap_year(2000));
    assert!(is_leap_year(-4));
}

#[test]
fn months_have_their_lengths() {
    assert_eq!(days_in_month(2024, 2), 29);
    assert_eq!(days_in_month(2023, 2), 28);
    assert_eq!(days_in_month(2023, 1), 31);
    assert_eq!(days_in_month(2023, 4), 30);
    assert_eq!(days_in_month(2023, 13), 30);
}

#[test]
fn weekdays_match_the_calendar() {
    assert_eq!(day_of_week(2026, 7, 16), 4); // a Thursday
    assert_eq!(day_of_week(2000, 1, 1), 6); // a Saturday
    assert_eq!(day_of_week(2024, 2, 29), 4);
    assert_eq!(day_of_week(2024, 3, 1), 5);
    assert_eq!(day_of_week(2023, 12, 31), 0);
    assert_eq!(day_of_week(2024, 1, 1), 1);
}

#[test]
fn month_steps_undo_each_other() {
    assert_eq!(previous_month(2026, 1), (2025, 12));
    assert_eq!(next_month(2025, 12), (2026, 1));
    assert_eq!(next_month(2026, 5), (2026, 6));
    for m in 1..=12 {
        let (y, pm) = previous_month(2026, m);
        assert_eq!(next_month(y, pm), (2026, m));
    }
}

#[test]
fn a_datetime_is_written_zero_padded() {
    assert_eq!(format_datetime(2026, 7, 16, 9, 5), "2026-07-16 09:05");
    assert_eq!(format_datetime(26, 1, 2, 0, 0), "0026-01-02 00:00");
    assert_eq!(format_datetime(2026, 7, 16, -3, 123), "2026-07-16 -3:123");
}

#[test]
fn a_datetime_reads_back() {
    assert_eq!(parse_datetime("2026-07-16 12:00"), Some((2026, 7, 16, 12, 0)));
    assert_eq!(parse_datetime(&format_datetime(1999, 12, 31, 23, 59)), Some((1999, 12, 31, 23, 59)));
    assert_eq!(parse_datetime("+2026-07-16 -1:00"), Some((2026, 7, 16, -1, 0)));
}

#[test]
fn malformed_datetimes_are_refused() {
    assert_eq!(parse_datetime(""), None);
    assert_eq!(parse_datetime("2026-07-16"), None);
    assert_eq!(parse_datetime("2026-07-16  12:00"), None);
    assert_eq!(parse_datetime("2026/07/16 12:00"), None);
    assert_eq!(parse_datetime("2026-07-16 12:00:00"), None);
    assert_eq!(parse_datetime("2026-07-x 12:00"), None);
    assert_eq!(parse_datetime("2026-07-16 12:"), None);
    assert_eq!(parse_datetime("99999999999-07-16 12:00"), None);
    assert_eq!(parse_datetime("2147483647-01-01 -2147483648:00"), Some((i32::MAX, 1, 1, i32::MIN, 0)));
}

#[test]
fn months_are_named_in_english() {
    assert_eq!(month_name(1), "January");
    assert_eq!(month_name(7), "July");
    assert_eq!(month_name(12), "December");
    assert_eq!(month_name(0), "Unknown");
    assert_eq!(month_name(13), "Unknown");
}
