//! Calendar dates and times: what the `chrono` crate reads, writes and
//! computes, on plain values.
//!
//! Nothing in this file is proved. Each function hands its arguments to
//! `chrono` and gives the answer a name, by which the rest of the crate
//! states what it does with it.

use crate::types::{Date, DateTime};
use chrono::{Datelike, Timelike};
use std::fmt::Write;
use vstd::prelude::*;

verus! {

/// The date that `chrono` reads from `text` under the format `format`.
pub uninterp spec fn chrono_date(text: Seq<char>, format: Seq<char>) -> Option<Date>;

/// The date and time that `chrono` reads from `text` under `format`.
pub uninterp spec fn chrono_date_time(text: Seq<char>, format: Seq<char>) -> Option<DateTime>;

/// The instant, in UTC, that `chrono` reads from an RFC 3339 timestamp.
pub uninterp spec fn chrono_rfc3339(text: Seq<char>) -> Option<DateTime>;

/// The text that `chrono` writes for an instant under the format `format`.
pub uninterp spec fn chrono_stamp(t: DateTime, format: Seq<char>) -> Option<Seq<char>>;

/// The text that `chrono` writes for a date.
pub uninterp spec fn chrono_date_text(d: Date) -> Option<Seq<char>>;

/// The date that lies `days` days before `d`.
pub uninterp spec fn chrono_days_before(d: Date, days: int) -> Option<Date>;

/// `NaiveDate::parse_from_str`: the date read from `text` under `format`, or
/// nothing where `chrono` reports an error. The result is the year, month
/// and day of the date that was read.
#[verifier::external_body]
pub(crate) fn parse_date(text: &str, format: &str) -> (r: Option<Date>)
    ensures
        r == chrono_date(text@, format@),
{
    chrono::NaiveDate::parse_from_str(text, format).ok().map(
        |d| Date { year: d.year(), month: d.month(), day: d.day() },
    )
}

/// `NaiveDateTime::parse_from_str`: the date and time read from `text` under
/// `format`, or nothing where `chrono` reports an error. The result holds
/// the fields of the value that was read.
#[verifier::external_body]
pub(crate) fn parse_date_time(text: &str, format: &str) -> (r: Option<DateTime>)
    ensures
        r == chrono_date_time(text@, format@),
{
    chrono::NaiveDateTime::parse_from_str(text, format).ok().map(
        |t|
            DateTime {
                year: t.year(),
                month: t.month(),
                day: t.day(),
                hour: t.hour(),
                minute: t.minute(),
                second: t.second(),
                nanosecond: t.nanosecond(),
            },
    )
}

/// `DateTime::parse_from_rfc3339`, followed by `with_timezone(&Utc)`: the
/// instant read from an RFC 3339 timestamp, expressed in UTC, or nothing
/// where `chrono` reports an error.
#[verifier::external_body]
pub(crate) fn parse_rfc3339(text: &str) -> (r: Option<DateTime>)
    ensures
        r == chrono_rfc3339(text@),
{
    chrono::DateTime::parse_from_rfc3339(text).ok().map(|t| t.with_timezone(&chrono::Utc)).map(
        |t|
            DateTime {
                year: t.year(),
                month: t.month(),
                day: t.day(),
                hour: t.hour(),
                minute: t.minute(),
                second: t.second(),
                nanosecond: t.nanosecond(),
            },
    )
}

/// `DateTime::<Utc>::format`: the text of an instant under `format`. There
/// is none where the fields are not a date and time that `chrono` accepts,
/// or where writing under `format` fails.
#[verifier::external_body]
pub(crate) fn format_date_time(t: &DateTime, format: &str) -> (r: Option<String>)
    ensures
        crate::types::opt_text(r) == chrono_stamp(*t, format@),
{
    let date = chrono::NaiveDate::from_ymd_opt(t.year, t.month, t.day)?;
    let naive = date.and_hms_nano_opt(t.hour, t.minute, t.second, t.nanosecond)?;
    let mut out = String::new();
    write!(out, "{}", naive.and_utc().format(format)).ok()?;
    Some(out)
}

/// `NaiveDate`'s `Display`: the text of a date. There is none where the
/// fields are not a date that `chrono` accepts.
#[verifier::external_body]
pub(crate) fn format_date(d: &Date) -> (r: Option<String>)
    ensures
        crate::types::opt_text(r) == chrono_date_text(*d),
{
    let date = chrono::NaiveDate::from_ymd_opt(d.year, d.month, d.day)?;
    let mut out = String::new();
    write!(out, "{}", date).ok()?;
    Some(out)
}

/// `NaiveDate::checked_sub_signed` with `TimeDelta::try_days`: the date that
/// lies `days` days before `d`. There is none where `d` is not a date that
/// `chrono` accepts, or where the number of days or the result is out of its
/// range.
#[verifier::external_body]
pub(crate) fn days_before(d: &Date, days: i64) -> (r: Option<Date>)
    ensures
        r == chrono_days_before(*d, days as int),
{
    let date = chrono::NaiveDate::from_ymd_opt(d.year, d.month, d.day)?;
    let earlier = date.checked_sub_signed(chrono::TimeDelta::try_days(days)?)?;
    Some(Date { year: earlier.year(), month: earlier.month(), day: earlier.day() })
}

/// `Utc::now`: the present instant. It differs from call to call, so nothing
/// is stated of it.
#[verifier::external_body]
pub(crate) fn now() -> (r: DateTime) {
    let t = chrono::Utc::now();
    DateTime {
        year: t.year(),
        month: t.month(),
        day: t.day(),
        hour: t.hour(),
        minute: t.minute(),
        second: t.second(),
        nanosecond: t.nanosecond(),
    }
}

/// `Utc::now().date_naive()`: the present day in UTC. It differs from call
/// to call, so nothing is stated of it.
#[verifier::external_body]
pub(crate) fn today() -> (r: Date) {
    let d = chrono::Utc::now().date_naive();
    Date { year: d.year(), month: d.month(), day: d.day() }
}

} // verus!
