//! What this crate asks of `chrono`: reading dates and times by a pattern,
//! writing them by a pattern, the length of a duration, and the arithmetic
//! of days and seconds on the calendar.
//!
//! None of this is proved here. Each function below calls `chrono` and states
//! what the crate relies on; what a call returns for a given text is named, not
//! spelled out.
use crate::calendar::{day_number, days_in_month, valid_date, Date};
use crate::instant::Instant;
use chrono::{Datelike, Timelike};
use std::fmt::Write;
use vstd::prelude::*;

verus! {

/// The error of `chrono`'s parsers.
#[verifier::external_type_specification]
#[verifier::external_body]
pub struct ExParseError(chrono::format::ParseError);

/// `chrono`'s span of time, exact to the nanosecond.
#[verifier::external_type_specification]
#[verifier::external_body]
pub struct ExTimeDelta(chrono::TimeDelta);

/// The (year, month, day) that `chrono::NaiveDate::parse_from_str` reads from
/// `text` by `pattern`; `None` where it reports an error.
pub uninterp spec fn parsed_date(text: Seq<char>, pattern: Seq<char>) -> Option<(i32, u32, u32)>;

/// The (year, month, day, hour, minute, second) that
/// `chrono::NaiveDateTime::parse_from_str` reads from `text` by `pattern`;
/// `None` where it reports an error.
pub uninterp spec fn parsed_date_time(text: Seq<char>, pattern: Seq<char>) -> Option<
    (i32, u32, u32, u32, u32, u32),
>;

/// The text that `chrono` writes for the given date and time of day by
/// `pattern`; `None` where the date or the time does not exist or the pattern
/// cannot be written.
pub uninterp spec fn formatted(
    year: int,
    month: int,
    day: int,
    hour: int,
    minute: int,
    second: int,
    pattern: Seq<char>,
) -> Option<Seq<char>>;

/// Calls `chrono::NaiveDate::parse_from_str` and hands out the fields of the
/// date it read. The result depends on `text` and `pattern` alone.
#[verifier::external_body]
pub(crate) fn parse_date(text: &str, pattern: &str) -> (r: Result<
    (i32, u32, u32),
    chrono::format::ParseError,
>)
    ensures
        r is Ok <==> parsed_date(text@, pattern@) is Some,
        r matches Ok(v) ==> parsed_date(text@, pattern@) == Some(v),
{
    match chrono::NaiveDate::parse_from_str(text, pattern) {
        Ok(d) => Ok((d.year(), d.month(), d.day())),
        Err(e) => Err(e),
    }
}

/// Calls `chrono::NaiveDateTime::parse_from_str` and hands out the fields of
/// the date and time it read. The result depends on `text` and `pattern` alone.
#[verifier::external_body]
pub(crate) fn parse_date_time(text: &str, pattern: &str) -> (r: Result<
    (i32, u32, u32, u32, u32, u32),
    chrono::format::ParseError,
>)
    ensures
        r is Ok <==> parsed_date_time(text@, pattern@) is Some,
        r matches Ok(v) ==> parsed_date_time(text@, pattern@) == Some(v),
{
    match chrono::NaiveDateTime::parse_from_str(text, pattern) {
        Ok(t) => Ok((t.year(), t.month(), t.day(), t.hour(), t.minute(), t.second())),
        Err(e) => Err(e),
    }
}

/// Makes the `chrono::NaiveDateTime` of the given fields and writes it by
/// `pattern`, as `chrono`'s `format` does. `None` where `chrono` has no such
/// date or time, or reports an error while writing.
#[verifier::external_body]
pub(crate) fn format_with(
    year: i32,
    month: u32,
    day: u32,
    hour: u32,
    minute: u32,
    second: u32,
    pattern: &str,
) -> (r: Option<String>)
    ensures
        r is Some <==> formatted(
            year as int,
            month as int,
            day as int,
            hour as int,
            minute as int,
            second as int,
            pattern@,
        ) is Some,
        r matches Some(s) ==> formatted(
            year as int,
            month as int,
            day as int,
            hour as int,
            minute as int,
            second as int,
            pattern@,
        ) == Some(s@),
{
    let at = chrono::NaiveDate::from_ymd_opt(year, month, day)?.and_hms_opt(hour, minute, second)?;
    let mut out = String::new();
    match write!(out, "{}", at.format(pattern)) {
        Ok(()) => Some(out),
        Err(_) => None,
    }
}

/// The whole seconds of `span`, as `chrono::TimeDelta::num_seconds` counts
/// them.
pub uninterp spec fn span_seconds(span: chrono::TimeDelta) -> int;

/// Calls `chrono::TimeDelta::num_seconds`: the whole seconds of `span`. The
/// number depends on `span` alone; it is named, not spelled out.
#[verifier::external_body]
pub(crate) fn whole_seconds(span: &chrono::TimeDelta) -> (r: i64)
    ensures
        r == span_seconds(*span),
{
    span.num_seconds()
}

/// Calls `chrono`'s `NaiveDate::weekday` and counts the days since Monday:
/// the day count of the date, less one, leaves that many over a whole number
/// of weeks, since 0001-01-01 is a Monday.
#[verifier::external_body]
pub(crate) fn weekday_from_monday(year: i32, month: u32, day: u32) -> (r: u32)
    requires
        valid_date(year as int, month as int, day as int),
    ensures
        r == (day_number(year as int, month as int, day as int) - 1) % 7,
{
    chrono::NaiveDate::from_ymd_opt(year, month, day).unwrap().weekday().num_days_from_monday()
}

/// Calls `chrono`'s `Datelike::num_days_from_ce`: the days since the day
/// before 0001-01-01.
#[verifier::external_body]
pub(crate) fn days_from_ce(year: i32, month: u32, day: u32) -> (r: i32)
    requires
        valid_date(year as int, month as int, day as int),
    ensures
        r == day_number(year as int, month as int, day as int),
{
    chrono::NaiveDate::from_ymd_opt(year, month, day).unwrap().num_days_from_ce()
}

/// Calls `chrono`'s `Datelike::num_days_in_month`: the length of the month
/// of the date.
#[verifier::external_body]
pub(crate) fn days_of_month(year: i32, month: u32, day: u32) -> (r: u32)
    requires
        valid_date(year as int, month as int, day as int),
    ensures
        r == days_in_month(year as int, month as int),
{
    chrono::NaiveDate::from_ymd_opt(year, month, day).unwrap().num_days_in_month().into()
}

/// Calls `chrono`'s `NaiveDate::checked_add_days` and hands out the fields
/// of the date that many days later, for a date that lies within the
/// calendar of this crate.
#[verifier::external_body]
pub(crate) fn date_after(year: i32, month: u32, day: u32, days: u64) -> (r: (i32, u32, u32))
    requires
        valid_date(year as int, month as int, day as int),
        day_number(year as int, month as int, day as int) + days <= Date::last_num(),
    ensures
        valid_date(r.0 as int, r.1 as int, r.2 as int),
        Date::of(r.0 as int, r.1 as int, r.2 as int) == Date::of(
            year as int,
            month as int,
            day as int,
        ).plus(days as nat),
{
    let start = chrono::NaiveDate::from_ymd_opt(year, month, day).unwrap();
    let end = start.checked_add_days(chrono::Days::new(days)).unwrap();
    (end.year(), end.month(), end.day())
}

/// Calls `chrono`'s `NaiveDate::checked_sub_days` and hands out the fields
/// of the date that many days earlier, for a date that lies within the
/// calendar of this crate.
#[verifier::external_body]
pub(crate) fn date_before(year: i32, month: u32, day: u32, days: u64) -> (r: (i32, u32, u32))
    requires
        valid_date(year as int, month as int, day as int),
        day_number(year as int, month as int, day as int) - days >= 1,
    ensures
        valid_date(r.0 as int, r.1 as int, r.2 as int),
        Date::of(r.0 as int, r.1 as int, r.2 as int) == Date::of(
            year as int,
            month as int,
            day as int,
        ).minus(days as nat),
{
    let start = chrono::NaiveDate::from_ymd_opt(year, month, day).unwrap();
    let end = start.checked_sub_days(chrono::Days::new(days)).unwrap();
    (end.year(), end.month(), end.day())
}

/// Calls `chrono`'s `NaiveDateTime::checked_add_signed` with a span of whole
/// seconds and hands out the date and the second of the day that many seconds
/// later, for an instant that lies within the calendar of this crate.
#[verifier::external_body]
pub(crate) fn moment_after(year: i32, month: u32, day: u32, second: u32, seconds: u64) -> (r: (
    i32,
    u32,
    u32,
    u32,
))
    requires
        valid_date(year as int, month as int, day as int),
        second < 86400,
        day_number(year as int, month as int, day as int) + (second + seconds) / 86400
            <= Date::last_num(),
    ensures
        valid_date(r.0 as int, r.1 as int, r.2 as int),
        r.3 < 86400,
        Instant::of(Date::of(r.0 as int, r.1 as int, r.2 as int), r.3 as int) == Instant::of(
            Date::of(year as int, month as int, day as int),
            second as int,
        ).plus_seconds(seconds as nat),
{
    let time = chrono::NaiveTime::from_num_seconds_from_midnight_opt(second, 0).unwrap();
    let start = chrono::NaiveDate::from_ymd_opt(year, month, day).unwrap().and_time(time);
    let end = start.checked_add_signed(chrono::TimeDelta::seconds(seconds as i64)).unwrap();
    (end.year(), end.month(), end.day(), end.num_seconds_from_midnight())
}

/// Calls `chrono`'s `NaiveDateTime::checked_sub_signed` with a span of whole
/// seconds and hands out the date and the second of the day that many seconds
/// earlier, for an instant that lies within the calendar of this crate.
#[verifier::external_body]
pub(crate) fn moment_before(year: i32, month: u32, day: u32, second: u32, seconds: u64) -> (r: (
    i32,
    u32,
    u32,
    u32,
))
    requires
        valid_date(year as int, month as int, day as int),
        second < 86400,
        day_number(year as int, month as int, day as int) - Instant::of(
            Date::of(year as int, month as int, day as int),
            second as int,
        ).days_back(seconds as nat) >= 1,
    ensures
        valid_date(r.0 as int, r.1 as int, r.2 as int),
        r.3 < 86400,
        Instant::of(Date::of(r.0 as int, r.1 as int, r.2 as int), r.3 as int) == Instant::of(
            Date::of(year as int, month as int, day as int),
            second as int,
        ).minus_seconds(seconds as nat),
{
    let time = chrono::NaiveTime::from_num_seconds_from_midnight_opt(second, 0).unwrap();
    let start = chrono::NaiveDate::from_ymd_opt(year, month, day).unwrap().and_time(time);
    let end = start.checked_sub_signed(chrono::TimeDelta::seconds(seconds as i64)).unwrap();
    (end.year(), end.month(), end.day(), end.num_seconds_from_midnight())
}

} // verus!
