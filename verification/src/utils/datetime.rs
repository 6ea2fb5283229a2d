//! Points in time, as microseconds since the Unix epoch in UTC, and their
//! RFC 3339 texts. A text without time zone is read as UTC.

use vstd::prelude::*;
use vstd::string::*;
use chrono::{DateTime, Utc};

verus! {

/// The point in time that an RFC 3339 text denotes, in microseconds since the
/// Unix epoch; none when the text is not an RFC 3339 date and time.
pub uninterp spec fn rfc3339_micros(text: Seq<char>) -> Option<i64>;

/// `chrono::DateTime::parse_from_rfc3339` reads `text`, and
/// `DateTime::timestamp_micros` gives the microseconds since the Unix epoch
/// of the point in time that it denotes. A text that does not parse gives
/// `None`.
#[verifier::external_body]
fn parse_rfc3339(text: &str) -> (r: Option<i64>)
    ensures
        r == rfc3339_micros(text@),
{
    match DateTime::parse_from_rfc3339(text) {
        Ok(moment) => Some(moment.timestamp_micros()),
        Err(_) => None,
    }
}

/// `chrono::Utc::now` followed by `DateTime::timestamp_micros`: the current
/// time. Nothing is known of it.
#[verifier::external_body]
pub(crate) fn now_micros() -> i64 {
    Utc::now().timestamp_micros()
}

/// The point in time that `text` denotes when it is read as it stands or,
/// failing that, with `Z` for the time zone.
pub open spec fn utc_micros(text: Seq<char>) -> Option<i64> {
    match rfc3339_micros(text) {
        Some(t) => Some(t),
        None => rfc3339_micros(text + "Z"@),
    }
}

/// What the two readings of a text come to.
pub fn first_reading(with_zone: Option<i64>, as_utc: Option<i64>) -> (r: Option<i64>)
    ensures
        r == match with_zone {
            Some(t) => Some(t),
            None => as_utc,
        },
{
    match with_zone {
        Some(t) => Some(t),
        None => as_utc,
    }
}

/// Reads an RFC 3339 date and time; a text without time zone is read as UTC.
pub fn deserialize(text: &str) -> (r: Option<i64>)
    ensures
        r == utc_micros(text@),
{
    let with_zone = parse_rfc3339(text);
    if with_zone.is_some() {
        return with_zone;
    }
    let mut zoned = text.to_string();
    zoned.append("Z");
    first_reading(with_zone, parse_rfc3339(zoned.as_str()))
}

} // verus!
