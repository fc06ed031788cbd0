//! Timestamps read from text, through chrono.
use vstd::prelude::*;

verus! {

/// The error chrono reports for text it cannot read as a date.
#[verifier::external_type_specification]
#[verifier::external_body]
pub struct ExParseError(chrono::ParseError);

/// What `chrono::NaiveDate::parse_from_str(s, fmt)` reads, as Unix milliseconds at the
/// start of that day (UTC); `None` when it reports an error.
pub uninterp spec fn naive_date_millis(s: Seq<char>, fmt: Seq<char>) -> Option<i64>;

/// What `chrono::NaiveDateTime::parse_from_str(s, fmt)` reads, as Unix milliseconds (UTC);
/// `None` when it reports an error.
pub uninterp spec fn naive_datetime_millis(s: Seq<char>, fmt: Seq<char>) -> Option<i64>;

/// What `chrono::DateTime::parse_from_rfc3339(s)` reads, as Unix milliseconds; `None` when
/// it reports an error.
pub uninterp spec fn rfc3339_millis(s: Seq<char>) -> Option<i64>;

/// Reads the date `s` in format `fmt` with `chrono::NaiveDate::parse_from_str`, and gives
/// the start of that day (00:00:00 UTC) in Unix milliseconds. The contract claims only that
/// the outcome is determined by `s` and `fmt`.
#[verifier::external_body]
pub(crate) fn parse_naive_date_millis(s: &str, fmt: &str) -> (r: Result<i64, chrono::ParseError>)
    ensures
        match r {
            Ok(ms) => naive_date_millis(s@, fmt@) == Some(ms),
            Err(_) => naive_date_millis(s@, fmt@) is None,
        },
{
    match chrono::NaiveDate::parse_from_str(s, fmt) {
        Ok(d) => Ok(d.and_time(chrono::NaiveTime::MIN).and_utc().timestamp_millis()),
        Err(e) => Err(e),
    }
}

/// Reads the date and time `s` in format `fmt` with `chrono::NaiveDateTime::parse_from_str`,
/// taken as UTC, in Unix milliseconds. The contract claims only that the outcome is
/// determined by `s` and `fmt`.
#[verifier::external_body]
pub(crate) fn parse_naive_datetime_millis(s: &str, fmt: &str) -> (r: Result<i64, chrono::ParseError>)
    ensures
        match r {
            Ok(ms) => naive_datetime_millis(s@, fmt@) == Some(ms),
            Err(_) => naive_datetime_millis(s@, fmt@) is None,
        },
{
    match chrono::NaiveDateTime::parse_from_str(s, fmt) {
        Ok(dt) => Ok(dt.and_utc().timestamp_millis()),
        Err(e) => Err(e),
    }
}

/// Reads the RFC 3339 date and time `s` with `chrono::DateTime::parse_from_rfc3339`, in Unix
/// milliseconds. The contract claims only that the outcome is determined by `s`.
#[verifier::external_body]
pub(crate) fn parse_rfc3339_millis(s: &str) -> (r: Result<i64, chrono::ParseError>)
    ensures
        match r {
            Ok(ms) => rfc3339_millis(s@) == Some(ms),
            Err(_) => rfc3339_millis(s@) is None,
        },
{
    match chrono::DateTime::parse_from_rfc3339(s) {
        Ok(dt) => Ok(dt.timestamp_millis()),
        Err(e) => Err(e),
    }
}

/// The timestamp of a date and time written `%Y-%m-%dT%H:%M:%S%.f`, 0 when absent or unreadable.
pub open spec fn iso_local_millis_or_zero(s: Option<Seq<char>>) -> i64 {
    match s {
        Some(t) => match naive_datetime_millis(t, "%Y-%m-%dT%H:%M:%S%.f"@) {
            Some(ms) => ms,
            None => 0,
        },
        None => 0,
    }
}

/// The timestamp of an RFC 3339 date and time, 0 when absent or unreadable.
pub open spec fn rfc3339_millis_or_zero(s: Option<Seq<char>>) -> i64 {
    match s {
        Some(t) => match rfc3339_millis(t) {
            Some(ms) => ms,
            None => 0,
        },
        None => 0,
    }
}

/// A timestamp that was read, or 0 when none was.
pub fn millis_or_zero(parsed: Option<i64>) -> (ms: i64)
    ensures
        ms == match parsed {
            Some(m) => m,
            None => 0,
        },
{
    match parsed {
        Some(m) => m,
        None => 0,
    }
}

/// The timestamp of a date and time written `%Y-%m-%dT%H:%M:%S%.f` (taken as UTC), 0 when
/// absent or unreadable.
pub fn iso_local_millis(s: &Option<String>) -> (ms: i64)
    ensures
        ms == iso_local_millis_or_zero(crate::sources::opt_view(*s)),
{
    let parsed = match s {
        Some(t) => match parse_naive_datetime_millis(t.as_str(), "%Y-%m-%dT%H:%M:%S%.f") {
            Ok(ms) => Some(ms),
            Err(_) => None,
        },
        None => None,
    };
    millis_or_zero(parsed)
}

/// The timestamp of an RFC 3339 date and time, 0 when absent or unreadable.
pub fn rfc3339_millis_of(s: &Option<String>) -> (ms: i64)
    ensures
        ms == rfc3339_millis_or_zero(crate::sources::opt_view(*s)),
{
    let parsed = match s {
        Some(t) => match parse_rfc3339_millis(t.as_str()) {
            Ok(ms) => Some(ms),
            Err(_) => None,
        },
        None => None,
    };
    millis_or_zero(parsed)
}

} // verus!
