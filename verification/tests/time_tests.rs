use tree_fragmentation::time::{format_date, parse_date, MAX_TIME, MIN_TIME};

#[test]
fn calendar_sentinels_match_the_calendar() {
    assert_eq!(chrono::NaiveDateTime::MIN.and_utc().timestamp(), MIN_TIME);
    assert_eq!(chrono::NaiveDateTime::MAX.and_utc().timestamp(), MAX_TIME);
}

#[test]
fn parse_date_reads_the_library_layout() {
    assert_eq!(parse_date("2020-01-01T00:00:00.000"), Some(1577836800));
    assert_eq!(parse_date("2020-01-01T12:00:00.5"), Some(1577880000));
    assert_eq!(parse_date("not a date"), None);
    assert_eq!(parse_date("2020-01-01T00:00:00"), None);
}

#[test]
fn format_date_writes_the_library_layout() {
    assert_eq!(
        format_date(1577836800),
        Some("2020-01-01T00:00:00.000000000".to_string())
    );
    assert_eq!(format_date(MAX_TIME + 1), None);
    assert_eq!(format_date(MIN_TIME - 1), None);
    assert!(format_date(MIN_TIME).is_some());
    assert!(format_date(MAX_TIME).is_some());
}

#[test]
fn parsed_dates_lie_within_the_calendar() {
    assert_eq!(parse_date("+262142-12-31T23:59:59.999999999"), Some(MAX_TIME));
    assert_eq!(parse_date("-262143-01-01T00:00:00.0"), Some(MIN_TIME));
    assert_eq!(parse_date("+262143-01-01T00:00:00.0"), None);
    assert_eq!(parse_date("-262144-12-31T23:59:59.0"), None);
    assert_eq!(parse_date("2015-06-30T23:59:60.0"), Some(1435708799));
    assert_eq!(parse_date("1969-12-31T23:59:59.5"), Some(-1));
}
