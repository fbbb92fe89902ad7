//! Timestamps: seconds since the Unix epoch, read from and written as
//! RFC 3339 dates.

use vstd::prelude::*;

verus! {

/// The instant, in seconds since the epoch, that an RFC 3339 date denotes;
/// `None` when the text is not such a date.
pub uninterp spec fn rfc3339_seconds(text: Seq<char>) -> Option<i64>;

/// The RFC 3339 text of an instant given in seconds since the epoch;
/// `None` when chrono's calendar cannot hold the instant.
pub uninterp spec fn rfc3339_text(secs: i64) -> Option<Seq<char>>;

/// First second of year 1 (0001-01-01T00:00:00Z).
pub const FIRST_SECOND_OF_YEAR_1: i64 = -62135596800;

/// Last second of year 9999 (9999-12-31T23:59:59Z).
pub const LAST_SECOND_OF_YEAR_9999: i64 = 253402300799;

/// Relies on `chrono::DateTime::parse_from_rfc3339` (then `timestamp`) to
/// read a date; the result depends on the text alone.
#[verifier::external_body]
pub(crate) fn parse_rfc3339(text: &str) -> (r: Option<i64>)
    ensures
        r == rfc3339_seconds(text@),
{
    chrono::DateTime::parse_from_rfc3339(text).ok().map(|d| d.timestamp())
}

/// Relies on `chrono::DateTime::from_timestamp` (then `to_rfc3339`) to write
/// an instant as a date. `from_timestamp` gives `None` only when the day
/// falls outside chrono's calendar (years -262143 to 262142), so every
/// instant of years 1 to 9999 is written.
#[verifier::external_body]
pub(crate) fn format_rfc3339(secs: i64) -> (r: Option<String>)
    ensures
        match r {
            Some(t) => rfc3339_text(secs) == Some(t@),
            None => rfc3339_text(secs) is None,
        },
        FIRST_SECOND_OF_YEAR_1 <= secs <= LAST_SECOND_OF_YEAR_9999 ==> r is Some,
{
    chrono::DateTime::from_timestamp(secs, 0).map(|d| d.to_rfc3339())
}

} // verus!
