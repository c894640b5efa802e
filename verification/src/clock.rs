//! Wall-clock time and its text form on the wire.

use vstd::prelude::*;

verus! {

/// The instant that a text in RFC 3339 form denotes, in milliseconds since
/// the Unix epoch, or `None` where the text is not in that form.
pub uninterp spec fn rfc3339_millis(text: Seq<char>) -> Option<i64>;

/// The RFC 3339 text, in UTC with three decimals of a second, of the instant
/// `millis` after the Unix epoch, or `None` where the calendar cannot hold it.
pub uninterp spec fn rfc3339_text(millis: i64) -> Option<Seq<char>>;

/// The current time in milliseconds since the Unix epoch.
///
/// Calls `chrono::Utc::now` and `DateTime::timestamp_millis`.  Nothing is
/// claimed of the value.  `Utc::now` gives up on a machine whose clock is set
/// before 1970.
#[verifier::external_body]
pub(crate) fn now_millis() -> (millis: i64) {
    chrono::Utc::now().timestamp_millis()
}

/// Reads an RFC 3339 timestamp.
///
/// Calls `chrono::DateTime::parse_from_rfc3339` and, on success,
/// `DateTime::timestamp_millis`; the contract only names the outcome.
#[verifier::external_body]
pub(crate) fn parse_rfc3339(text: &str) -> (millis: Option<i64>)
    ensures
        millis == rfc3339_millis(text@),
{
    match chrono::DateTime::parse_from_rfc3339(text) {
        Ok(at) => Some(at.timestamp_millis()),
        Err(_) => None,
    }
}

/// Writes an instant as RFC 3339 text in UTC with millisecond precision.
///
/// Calls `chrono::DateTime::from_timestamp_millis` and, where that gives a
/// date, `DateTime::to_rfc3339_opts(SecondsFormat::Millis, true)`; the
/// contract only names the outcome.
#[verifier::external_body]
pub(crate) fn format_rfc3339(millis: i64) -> (text: Option<String>)
    ensures
        match text {
            Some(t) => rfc3339_text(millis) == Some(t@),
            None => rfc3339_text(millis) is None,
        },
{
    match chrono::DateTime::from_timestamp_millis(millis) {
        Some(at) => Some(at.to_rfc3339_opts(chrono::SecondsFormat::Millis, true)),
        None => None,
    }
}

} // verus!
