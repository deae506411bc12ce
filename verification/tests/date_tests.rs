use chrono::{Datelike, NaiveDate};
use log_book_git::calendar::{get_week_start, Date, Timestamp};
use log_book_git::range::{parse_month, range_before, resolve_date_range, DateError, DateRange};

fn d(year: i32, month: u32, day: u32) -> Date {
    Date { year, month, day }
}

fn at(date: Date) -> Timestamp {
    Timestamp { date, seconds: 12 * 3600, nanos: 0 }
}

#[test]
fn parse_month_gives_whole_month() {
    assert_eq!(parse_month("01/2025"), Ok((d(2025, 1, 1), d(2025, 1, 31))));
    assert_eq!(parse_month("02/2024"), Ok((d(2024, 2, 1), d(2024, 2, 29))));
    assert_eq!(parse_month("02/2023"), Ok((d(2023, 2, 1), d(2023, 2, 28))));
    assert_eq!(parse_month("02/1900"), Ok((d(1900, 2, 1), d(1900, 2, 28))));
    assert_eq!(parse_month("02/2000"), Ok((d(2000, 2, 1), d(2000, 2, 29))));
    assert_eq!(parse_month("12/2024"), Ok((d(2024, 12, 1), d(2024, 12, 31))));
    assert_eq!(parse_month("4/+2025"), Ok((d(2025, 4, 1), d(2025, 4, 30))));
    assert_eq!(parse_month("03/-5"), Ok((d(-5, 3, 1), d(-5, 3, 31))));
}

#[test]
fn parse_month_errors() {
    assert_eq!(parse_month("2025"), Err(DateError::InvalidFormat));
    assert_eq!(parse_month("1/2/3"), Err(DateError::InvalidFormat));
    assert_eq!(parse_month(""), Err(DateError::InvalidFormat));
    assert_eq!(parse_month("ab/2025"), Err(DateError::InvalidMonthNumber));
    assert_eq!(parse_month("/2025"), Err(DateError::InvalidMonthNumber));
    assert_eq!(parse_month("01/abc"), Err(DateError::InvalidYear));
    assert_eq!(parse_month("13/2025"), Err(DateError::MonthOutOfRange));
    assert_eq!(parse_month("00/2025"), Err(DateError::MonthOutOfRange));
    assert_eq!(parse_month("12/262142"), Err(DateError::InvalidDate));
    assert_eq!(parse_month("01/262143"), Err(DateError::InvalidDate));
    assert_eq!(parse_month("01/-262144"), Err(DateError::InvalidDate));
    assert_eq!(parse_month("11/262142"), Ok((d(262142, 11, 1), d(262142, 11, 30))));
    assert_eq!(parse_month("01/-262143"), Ok((d(-262143, 1, 1), d(-262143, 1, 31))));
}

#[test]
fn range_contains_both_ends() {
    let range = DateRange { start: d(2025, 1, 1), end: d(2025, 1, 31) };
    assert!(range.contains(d(2025, 1, 1)));
    assert!(range.contains(d(2025, 1, 31)));
    assert!(range.contains(d(2025, 1, 15)));
    assert!(!range.contains(d(2024, 12, 31)));
    assert!(!range.contains(d(2025, 2, 1)));
}

#[test]
fn range_timestamps() {
    let range = DateRange { start: d(2025, 1, 1), end: d(2025, 1, 31) };
    assert_eq!(range.since_timestamp(), "2025-01-01T00:00:00Z");
    assert_eq!(range.until_timestamp(), "2025-02-01T00:00:00Z");
    let year_end = DateRange { start: d(2024, 12, 1), end: d(2024, 12, 31) };
    assert_eq!(year_end.until_timestamp(), "2025-01-01T00:00:00Z");
    let leap = DateRange { start: d(2024, 2, 1), end: d(2024, 2, 28) };
    assert_eq!(leap.until_timestamp(), "2024-02-29T00:00:00Z");
}

#[test]
fn timestamps_with_unusual_years() {
    let early = DateRange { start: d(999, 3, 4), end: d(999, 3, 4) };
    assert_eq!(early.since_timestamp(), "0999-03-04T00:00:00Z");
    let negative = DateRange { start: d(-5, 1, 1), end: d(-5, 1, 1) };
    assert_eq!(negative.since_timestamp(), "-0005-01-01T00:00:00Z");
    let far = DateRange { start: d(10000, 1, 1), end: d(10000, 1, 1) };
    assert_eq!(far.since_timestamp(), "+10000-01-01T00:00:00Z");
}

#[test]
fn week_starts_on_monday() {
    assert_eq!(get_week_start(&at(d(2025, 1, 22))), d(2025, 1, 20));
    assert_eq!(get_week_start(&at(d(2025, 1, 20))), d(2025, 1, 20));
    assert_eq!(get_week_start(&at(d(2025, 1, 26))), d(2025, 1, 20));
    assert_eq!(get_week_start(&at(d(2025, 1, 1))), d(2024, 12, 30));
    assert_eq!(get_week_start(&at(d(1, 1, 1))), d(1, 1, 1));
}

#[test]
fn week_start_agrees_with_chrono_over_a_year() {
    let mut day = NaiveDate::from_ymd_opt(2023, 12, 1).unwrap();
    for _ in 0..400 {
        let date = d(day.year(), day.month(), day.day());
        let start = get_week_start(&at(date));
        let expected = day - chrono::Duration::days(day.weekday().num_days_from_monday() as i64);
        assert_eq!(start, d(expected.year(), expected.month(), expected.day()));
        day = day.succ_opt().unwrap();
    }
}

#[test]
fn range_before_counts_back_days() {
    let r = range_before(d(2025, 3, 10), 30).unwrap();
    assert_eq!(r, DateRange { start: d(2025, 2, 8), end: d(2025, 3, 10) });
    let r = range_before(d(2025, 3, 10), 0).unwrap();
    assert_eq!(r.start, d(2025, 3, 10));
    assert_eq!(range_before(d(-262143, 1, 5), 10), Err(DateError::OutOfRange));
    assert_eq!(range_before(d(2025, 1, 1), u32::MAX), Err(DateError::OutOfRange));
}

#[test]
fn month_takes_precedence_over_days() {
    let r = resolve_date_range(Some("01/2025"), 7).unwrap();
    assert_eq!(r, DateRange { start: d(2025, 1, 1), end: d(2025, 1, 31) });
    assert_eq!(resolve_date_range(Some("13/2025"), 7), Err(DateError::MonthOutOfRange));
}

#[test]
fn days_range_ends_today() {
    let r = resolve_date_range(None, 30).unwrap();
    let end = NaiveDate::from_ymd_opt(r.end.year, r.end.month, r.end.day).unwrap();
    let start = NaiveDate::from_ymd_opt(r.start.year, r.start.month, r.start.day).unwrap();
    assert_eq!((end - start).num_days(), 30);
    let today = chrono::Utc::now().date_naive();
    assert!((today - end).num_days().abs() <= 1);
}
