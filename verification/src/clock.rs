//! Wall-clock readings through std's clock, and RFC 3339 timestamp
//! rendering and parsing through chrono.
//!
//! The hub stores timestamps as RFC 3339 text and prunes activity records
//! by age. Both directions of the text/seconds correspondence go through
//! chrono and are trusted; everything that decides on the parsed value is
//! verified.

use vstd::prelude::*;

verus! {

/// What chrono's RFC 3339 parser reads from a string: `Some` of the epoch
/// second of the instant when the string is a valid RFC 3339 date-time,
/// `None` otherwise. The result is a function of the characters alone.
pub uninterp spec fn rfc3339_secs(s: Seq<char>) -> Option<i64>;

/// Relies on chrono's `DateTime::parse_from_rfc3339` and
/// `DateTime::timestamp`: parsing a timestamp string is deterministic in
/// the string.
#[verifier::external_body]
pub fn parse_rfc3339_secs(s: &str) -> (r: Option<i64>)
    ensures
        r == rfc3339_secs(s@),
{
    match chrono::DateTime::parse_from_rfc3339(s) {
        Ok(dt) => Some(dt.timestamp()),
        Err(_) => None,
    }
}

/// One reading of the wall clock: the instant as RFC 3339 text and as an
/// epoch second.
#[derive(Debug, Clone)]
pub struct Timestamp {
    pub text: String,
    pub secs: i64,
}

/// Reads the clock through std's `SystemTime` (total, unlike chrono's
/// `Utc::now`, which panics on a pre-epoch clock) and renders it with
/// chrono's `DateTime::from_timestamp` and `to_rfc3339`. The seconds
/// field is then read back from the rendered text by
/// `parse_from_rfc3339` — the very computation `rfc3339_secs` names —
/// so the contract holds whatever the clock showed; when the clock is
/// unreadable or the text does not parse back, the Unix epoch stands
/// in, and that one constant is checked by hand.
#[verifier::external_body]
pub fn now_timestamp() -> (r: Timestamp)
    ensures
        rfc3339_secs(r.text@) == Some(r.secs),
{
    let since_epoch = std::time::SystemTime::now()
        .duration_since(std::time::UNIX_EPOCH)
        .map(|d| i64::try_from(d.as_secs()).unwrap_or(0))
        .unwrap_or(0);
    let epoch = String::from("1970-01-01T00:00:00+00:00");
    let text = chrono::DateTime::from_timestamp(since_epoch, 0)
        .map(|dt| dt.to_rfc3339())
        .unwrap_or(epoch);
    match chrono::DateTime::parse_from_rfc3339(&text) {
        Ok(dt) => {
            let secs = dt.timestamp();
            Timestamp { text, secs }
        },
        Err(_) => Timestamp { text: String::from("1970-01-01T00:00:00+00:00"), secs: 0 },
    }
}

} // verus!
