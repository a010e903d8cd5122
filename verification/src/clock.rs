//! Timestamps: nanoseconds since the Unix epoch in UTC, and their RFC 3339 text.

use vstd::prelude::*;

verus! {

/// The RFC 3339 text of a timestamp, as `DateTime::to_rfc3339` writes it for
/// the UTC instant that lies `nanos` nanoseconds after the Unix epoch.
pub uninterp spec fn rfc3339_text(nanos: i64) -> Seq<char>;

/// The timestamp that an RFC 3339 text denotes, as
/// `DateTime::parse_from_rfc3339` reads it, or nothing where the text is
/// rejected or the instant does not fit in 64 bits of nanoseconds.
pub uninterp spec fn parsed_rfc3339(text: Seq<char>) -> Option<i64>;

/// `Utc::now`, read by `timestamp_nanos_opt`. Nothing is promised of the
/// value: it depends on the clock.
#[verifier::external_body]
pub(crate) fn system_time() -> Option<i64> {
    chrono::Utc::now().timestamp_nanos_opt()
}

/// `DateTime::to_rfc3339` on the instant built by
/// `DateTime::from_timestamp_nanos`, which accepts every `i64`.
#[verifier::external_body]
pub(crate) fn format_rfc3339(nanos: i64) -> (text: String)
    ensures
        text@ == rfc3339_text(nanos),
{
    chrono::DateTime::from_timestamp_nanos(nanos).to_rfc3339()
}

/// `DateTime::parse_from_rfc3339`, with the instant read back by
/// `timestamp_nanos_opt`.
#[verifier::external_body]
pub(crate) fn parse_rfc3339(text: &str) -> (nanos: Option<i64>)
    ensures
        nanos == parsed_rfc3339(text@),
{
    chrono::DateTime::parse_from_rfc3339(text).ok().and_then(|instant| instant.timestamp_nanos_opt())
}

/// The time that a reading of the clock stands for. A reading outside the
/// representable range stands for the latest representable instant.
pub open spec fn time_of(reading: Option<i64>) -> i64 {
    match reading {
        Some(nanos) => nanos,
        None => i64::MAX,
    }
}

/// The time that a reading of the clock stands for.
pub fn time_of_reading(reading: Option<i64>) -> (time: i64)
    ensures
        time == time_of(reading),
{
    match reading {
        Some(nanos) => nanos,
        None => i64::MAX,
    }
}

/// The current time: what the reading of the system's clock stands for.
/// Every instant can be read, so nothing is promised of the value.
pub fn now() -> i64 {
    time_of_reading(system_time())
}

} // verus!
