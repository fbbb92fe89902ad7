//! Errors of a collection run.

use vstd::prelude::*;

verus! {

/// An error fatal to one repository's collection task.
#[derive(Clone, Copy, Debug, PartialEq, Eq, Structural)]
pub enum ApiError {
    /// The request or the response failed in transit.
    Transport,
    /// The API answered with a status other than 200.
    UnexpectedStatus(u16),
    /// A response carried no remaining-quota header.
    MissingRateLimitHeader,
    /// The remaining-quota header is not an integer.
    MalformedRateLimitHeader,
    /// A page body is not the listing it should be.
    MalformedBody,
    /// The link header could not be parsed.
    MalformedLinkHeader,
    /// A record's timestamp is not an RFC 3339 date.
    MalformedTimestamp,
    /// A resume boundary cannot be written as a date.
    TimestampOutOfRange,
    /// Every credential has been retired: no client is left.
    QuotaExhausted,
}

/// An error in the configuration of a run, fatal before any fetch.
#[derive(Clone, Debug, PartialEq, Eq)]
pub enum ConfigError {
    /// No credential was provided.
    NoCredentials,
    /// A repository entry is not of the form `owner/repo`.
    MalformedRepository(String),
}

} // verus!
