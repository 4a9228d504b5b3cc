//! Calendar and clock access, through the `chrono` crate. Everything the
//! library computes from these values is verified against the names below;
//! the calendar arithmetic itself is chrono's.

use vstd::prelude::*;

verus! {

/// The seconds since the Unix epoch of the wall-clock date-time an RFC 3339
/// string writes, its zone offset disregarded, or nothing when the string is
/// not one. The result depends on the string alone.
pub uninterp spec fn rfc3339_seconds(s: Seq<char>) -> Option<i64>;

/// The `day. month-abbreviation. year` rendering of a timestamp, as chrono's
/// `%d. %b. %Y` format writes it; empty for timestamps outside chrono's
/// range. The result depends on the timestamp alone.
pub uninterp spec fn date_text(ts: i64) -> Seq<char>;

/// Relies on `chrono::DateTime::parse_from_rfc3339` and
/// `NaiveDateTime::and_utc`: parses an RFC 3339 date-time and yields the
/// timestamp of its wall-clock reading, so dates render as written.
#[verifier::external_body]
pub fn parse_rfc3339(s: &str) -> (r: Option<i64>)
    ensures
        r == rfc3339_seconds(s@),
{
    match chrono::DateTime::parse_from_rfc3339(s) {
        Ok(d) => Some(d.naive_local().and_utc().timestamp()),
        Err(_) => None,
    }
}

/// Relies on `chrono::Utc::now`: the current time as seconds since the Unix
/// epoch. Nothing is assumed of the value; every caller's result is stated
/// for whatever it returns.
#[verifier::external_body]
pub fn now_seconds() -> (r: i64) {
    chrono::Utc::now().timestamp()
}

/// Relies on `chrono::DateTime::from_timestamp` and `format("%d. %b. %Y")`:
/// renders the calendar date of a timestamp.
#[verifier::external_body]
pub fn format_date(ts: i64) -> (r: String)
    ensures
        r@ == date_text(ts),
{
    match chrono::DateTime::<chrono::Utc>::from_timestamp(ts, 0) {
        Some(d) => d.format("%d. %b. %Y").to_string(),
        None => String::new(),
    }
}

} // verus!
