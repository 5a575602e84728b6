//! Dates and times, read and written by chrono.
use chrono::Datelike;
use std::fmt::Write;
use vstd::prelude::*;

verus! {

/// The seconds since the Unix epoch of an RFC 3339 timestamp, as chrono reads it.
pub uninterp spec fn rfc3339_seconds(s: Seq<char>) -> Option<i64>;

/// The seconds since the Unix epoch of a UTC date and time, as chrono's `FromStr` for
/// `DateTime<Utc>` reads it.
pub uninterp spec fn utc_text_seconds(s: Seq<char>) -> Option<i64>;

/// The seconds since the Unix epoch of a date and time without offset, read as UTC by
/// chrono's `FromStr` for `NaiveDateTime`.
pub uninterp spec fn naive_text_seconds(s: Seq<char>) -> Option<i64>;

/// The text that chrono writes for the UTC instant `ts` seconds after the epoch with the
/// format `fmt`; `None` where the instant is outside chrono's range or `fmt` is not valid.
pub uninterp spec fn utc_formatted(ts: i64, fmt: Seq<char>) -> Option<Seq<char>>;

/// Calls `chrono::DateTime::parse_from_rfc3339` and takes `timestamp()` of the result.
/// The contract names the result; it states nothing of chrono's grammar.
#[verifier::external_body]
pub(crate) fn parse_rfc3339_seconds(s: &str) -> (r: Option<i64>)
    ensures
        r == rfc3339_seconds(s@),
{
    chrono::DateTime::parse_from_rfc3339(s).ok().map(|d| d.timestamp())
}

/// Calls chrono's `FromStr` for `DateTime<Utc>` and takes `timestamp()` of the result.
/// The contract names the result; it states nothing of chrono's grammar.
#[verifier::external_body]
pub(crate) fn parse_utc_seconds(s: &str) -> (r: Option<i64>)
    ensures
        r == utc_text_seconds(s@),
{
    s.parse::<chrono::DateTime<chrono::Utc>>().ok().map(|d| d.timestamp())
}

/// Calls chrono's `FromStr` for `NaiveDateTime`, takes the instant as UTC and its
/// `timestamp()`. The contract names the result; it states nothing of chrono's grammar.
#[verifier::external_body]
pub(crate) fn parse_naive_seconds(s: &str) -> (r: Option<i64>)
    ensures
        r == naive_text_seconds(s@),
{
    s.parse::<chrono::NaiveDateTime>().ok().map(|d| d.and_utc().timestamp())
}

/// Calls `chrono::DateTime::from_timestamp(ts, 0)` and writes the instant with
/// `format(fmt)`. The contract names the result; it states nothing of chrono's calendar.
#[verifier::external_body]
pub(crate) fn format_utc(ts: i64, fmt: &str) -> (r: Option<String>)
    ensures
        match (r, utc_formatted(ts, fmt@)) {
            (Some(text), Some(t)) => text@ == t,
            (None, None) => true,
            _ => false,
        },
{
    let instant = chrono::DateTime::from_timestamp(ts, 0)?;
    let mut out = String::new();
    write!(out, "{}", instant.format(fmt)).ok()?;
    Some(out)
}

/// The UTC year and month of an instant given in seconds since the epoch, as chrono's
/// `DateTime::from_timestamp(ts, 0)` reads it; none where chrono has no such instant.
pub uninterp spec fn utc_year_month(ts: i64) -> Option<(i32, u32)>;

/// Calls `chrono::DateTime::from_timestamp(ts, 0)` and takes `year()` and `month()` of
/// the instant. The contract names the result, and states that a month is 1 to 12 as
/// chrono documents it.
#[verifier::external_body]
pub(crate) fn year_month_of(ts: i64) -> (r: Option<(i32, u32)>)
    ensures
        r == utc_year_month(ts),
        r matches Some(ym) ==> 1 <= ym.1 <= 12,
{
    let instant = chrono::DateTime::from_timestamp(ts, 0)?;
    Some((instant.year(), instant.month()))
}

/// The current UTC time from `chrono::Utc::now()`: seconds since the epoch, and the year
/// and month of that same instant. Of a clock reading nothing else is stated.
#[verifier::external_body]
pub(crate) fn utc_now() -> (r: (i64, i32, u32))
    ensures
        1 <= r.2 <= 12,
        utc_year_month(r.0) == Some((r.1, r.2)),
{
    let now = chrono::Utc::now();
    (now.timestamp(), now.year(), now.month())
}

/// The day, counted from 1 January of year 1 as day 1, of a date read by chrono's
/// `NaiveDate::parse_from_str` with the format `fmt`.
pub uninterp spec fn date_days(s: Seq<char>, fmt: Seq<char>) -> Option<i64>;

/// The day, counted as in `date_days`, of a date and time read by chrono's
/// `NaiveDateTime::parse_from_str` with the format `fmt`.
pub uninterp spec fn datetime_days(s: Seq<char>, fmt: Seq<char>) -> Option<i64>;

/// Calls `chrono::NaiveDate::parse_from_str(s, fmt)` and takes `num_days_from_ce()` of
/// the date. The contract names the result; it states nothing of chrono's formats.
#[verifier::external_body]
pub(crate) fn parse_date_days(s: &str, fmt: &str) -> (r: Option<i64>)
    ensures
        r == date_days(s@, fmt@),
{
    chrono::NaiveDate::parse_from_str(s, fmt).ok().map(|d| d.num_days_from_ce() as i64)
}

/// Calls `chrono::NaiveDateTime::parse_from_str(s, fmt)` and takes `num_days_from_ce()`
/// of its date. The contract names the result; it states nothing of chrono's formats.
#[verifier::external_body]
pub(crate) fn parse_datetime_days(s: &str, fmt: &str) -> (r: Option<i64>)
    ensures
        r == datetime_days(s@, fmt@),
{
    chrono::NaiveDateTime::parse_from_str(s, fmt).ok().map(|d| d.date().num_days_from_ce() as i64)
}

} // verus!
