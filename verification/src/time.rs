//! Calendar time as seconds since the Unix epoch, and its textual forms.

use vstd::prelude::*;

verus! {

/// Lower sentinel: the earliest instant a calendar date-time can denote.
pub const MIN_TIME: i64 = -8_334_601_228_800;

/// Upper sentinel: the latest whole second a calendar date-time can denote.
pub const MAX_TIME: i64 = 8_210_266_876_799;

/// The layout in which dates are read from members and written into relations.
pub open spec fn date_time_format() -> Seq<char> {
    "%Y-%m-%dT%H:%M:%S.%f"@
}

/// The timestamp that `chrono::NaiveDateTime::parse_from_str` followed by
/// `timestamp` yields for `text` under `format`, or `None` where parsing fails.
pub uninterp spec fn parsed_date_time(text: Seq<char>, format: Seq<char>) -> Option<i64>;

/// The text that `chrono`'s `format(..).to_string()` yields for the date-time
/// lying `seconds` after the epoch.
pub uninterp spec fn formatted_date_time(seconds: i64, format: Seq<char>) -> Seq<char>;

/// The text that `chrono` shows for the date-time lying `seconds` after the
/// epoch: its `Display`.
pub uninterp spec fn displayed_date_time(seconds: i64) -> Seq<char>;

/// A date in range of the calendar.
pub open spec fn in_calendar(seconds: int) -> bool {
    MIN_TIME <= seconds <= MAX_TIME
}

/// The error of `chrono`'s parsers, carried through unread.
#[verifier::external_type_specification]
#[verifier::external_body]
pub struct ExParseError(chrono::ParseError);

/// Calls `chrono::NaiveDateTime::MIN` and takes its timestamp. Trusted: the
/// first day of the calendar's lowest year at midnight lies `MIN_TIME` seconds
/// from the epoch.
#[verifier::external_body]
pub(crate) fn min_time() -> (t: i64)
    ensures
        t == MIN_TIME,
{
    chrono::NaiveDateTime::MIN.and_utc().timestamp()
}

/// Calls `chrono::NaiveDateTime::MAX` and takes its timestamp. Trusted: the
/// last second of the calendar's highest year lies `MAX_TIME` seconds from the
/// epoch.
#[verifier::external_body]
pub(crate) fn max_time() -> (t: i64)
    ensures
        t == MAX_TIME,
{
    chrono::NaiveDateTime::MAX.and_utc().timestamp()
}

/// Calls `chrono::NaiveDateTime::parse_from_str` and takes the timestamp of
/// the parsed value. Trusted: the outcome depends on the two texts alone, and
/// a parsed date-time lies within the calendar.
#[verifier::external_body]
pub(crate) fn parse_timestamp(text: &str, format: &str) -> (r: Result<i64, chrono::ParseError>)
    ensures
        r.is_ok() == parsed_date_time(text@, format@).is_some(),
        r matches Ok(t) ==> parsed_date_time(text@, format@) == Some(t) && in_calendar(t as int),
{
    chrono::NaiveDateTime::parse_from_str(text, format).map(|d| d.and_utc().timestamp())
}

/// Calls `chrono::DateTime::from_timestamp` and formats the result. Trusted:
/// the text depends on the arguments alone. Timestamps outside the calendar,
/// on which `from_timestamp` yields nothing, are excluded, and so is any
/// layout but the library's own.
#[verifier::external_body]
pub(crate) fn format_timestamp(seconds: i64, format: &str) -> (r: String)
    requires
        in_calendar(seconds as int),
        format@ == date_time_format(),
    ensures
        r@ == formatted_date_time(seconds, format@),
{
    chrono::DateTime::from_timestamp(seconds, 0).unwrap().naive_utc().format(format).to_string()
}

/// Calls `chrono::DateTime::from_timestamp` and shows the result through its
/// `Display`, without a time zone. Trusted: the text depends on the timestamp
/// alone. Timestamps outside the calendar, on which `from_timestamp` yields
/// nothing, are excluded.
#[verifier::external_body]
pub(crate) fn display_timestamp(seconds: i64) -> (r: String)
    requires
        in_calendar(seconds as int),
    ensures
        r@ == displayed_date_time(seconds),
{
    chrono::DateTime::from_timestamp(seconds, 0).unwrap().naive_utc().to_string()
}

/// The date of the calendar that is nearest to `seconds`.
pub open spec fn nearest_date(seconds: i64) -> i64 {
    if seconds > MAX_TIME {
        MAX_TIME
    } else if seconds < MIN_TIME {
        MIN_TIME
    } else {
        seconds
    }
}

/// Shows a date for a reader; a timestamp outside the calendar is shown as
/// the nearest date of the calendar.
pub fn show_date(seconds: i64) -> (r: String)
    ensures
        r@ == displayed_date_time(nearest_date(seconds)),
{
    let highest = max_time();
    let lowest = min_time();
    if seconds > highest {
        display_timestamp(highest)
    } else if seconds < lowest {
        display_timestamp(lowest)
    } else {
        display_timestamp(seconds)
    }
}

/// Reads a date in the library's layout.
pub fn parse_date(text: &str) -> (r: Option<i64>)
    ensures
        r == parsed_date_time(text@, date_time_format()),
        r matches Some(t) ==> in_calendar(t as int),
{
    match parse_timestamp(text, "%Y-%m-%dT%H:%M:%S.%f") {
        Ok(t) => Some(t),
        Err(_) => None,
    }
}

/// Writes a date in the library's layout, or nothing for a timestamp outside
/// the calendar.
pub fn format_date(seconds: i64) -> (r: Option<String>)
    ensures
        in_calendar(seconds as int) <==> r.is_some(),
        r matches Some(s) ==> s@ == formatted_date_time(seconds, date_time_format()),
{
    if seconds >= min_time() && seconds <= max_time() {
        Some(format_timestamp(seconds, "%Y-%m-%dT%H:%M:%S.%f"))
    } else {
        None
    }
}

} // verus!
