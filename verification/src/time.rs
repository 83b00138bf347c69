//! Calendar time at the edges of the library: RFC 3339 text and the clock.

use vstd::prelude::*;

verus! {

/// UTC Unix timestamp (seconds) of an RFC 3339 text, where chrono accepts it.
pub uninterp spec fn rfc3339_timestamp(s: Seq<char>) -> Option<i64>;

/// Calls chrono `DateTime::parse_from_rfc3339` and reads the UTC Unix
/// timestamp of the result. Which texts chrono accepts is not restated.
#[verifier::external_body]
pub(crate) fn parse_rfc3339_timestamp(s: &str) -> (r: Option<i64>)
    ensures
        r == rfc3339_timestamp(s@),
{
    match chrono::DateTime::parse_from_rfc3339(s) {
        Ok(dt) => Some(dt.with_timezone(&chrono::Utc).timestamp()),
        Err(_) => None,
    }
}

/// RFC 3339 text chrono writes for a UTC Unix timestamp (seconds), where
/// the timestamp is within chrono's range.
pub uninterp spec fn rfc3339_text(secs: i64) -> Option<Seq<char>>;

/// Calls chrono `DateTime::<Utc>::from_timestamp(secs, 0)` and, where that
/// is in range, `to_rfc3339` on it.
#[verifier::external_body]
pub(crate) fn format_rfc3339(secs: i64) -> (r: Option<String>)
    ensures
        match r {
            Some(s) => rfc3339_text(secs) == Some(s@),
            None => rfc3339_text(secs) is None,
        },
{
    match chrono::DateTime::<chrono::Utc>::from_timestamp(secs, 0) {
        Some(dt) => Some(dt.to_rfc3339()),
        None => None,
    }
}


/// A point on the monotonic clock (`std::time::Instant`).
#[verifier::external_type_specification]
#[verifier::external_body]
pub struct ExInstant(std::time::Instant);

/// `std::time::Instant::now`: the current point on the monotonic clock.
#[verifier::external_body]
pub(crate) fn instant_now() -> std::time::Instant {
    std::time::Instant::now()
}

/// `Instant::elapsed`, in whole milliseconds: time since `t` on the
/// monotonic clock. Nothing is claimed of the value.
#[verifier::external_body]
pub(crate) fn millis_since(t: &std::time::Instant) -> u64 {
    t.elapsed().as_millis() as u64
}

} // verus!
