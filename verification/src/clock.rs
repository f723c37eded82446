//! Instants, as the library reads and compares them.
//!
//! An instant is a count of nanoseconds since the Unix epoch (UTC), the value
//! `OffsetDateTime::unix_timestamp_nanos` gives.

use vstd::prelude::*;

verus! {

/// Nanoseconds in a second.
pub const NANOS_PER_SECOND: i128 = 1_000_000_000;

/// Nanoseconds in a millisecond.
pub const NANOS_PER_MILLI: i128 = 1_000_000;

/// The earliest instant the clock can report: a Unix timestamp is a whole
/// number of seconds held in an `i64`, plus less than a second of nanoseconds.
pub open spec fn min_clock_nanos() -> int {
    i64::MIN * NANOS_PER_SECOND
}

/// The latest instant the clock can report.
pub open spec fn max_clock_nanos() -> int {
    i64::MAX * NANOS_PER_SECOND + (NANOS_PER_SECOND - 1)
}

/// The last instant a date-time can hold: the end of the year 9999, UTC.
/// Moving a date-time past it panics.
pub const MAX_INSTANT_NANOS: i128 = 253_402_300_799_999_999_999;

/// The current instant (`OffsetDateTime::now_utc`, read as Unix nanoseconds).
/// It depends on the clock: only the range that the conversion from whole
/// `i64` seconds and sub-second nanoseconds allows is stated.
#[verifier::external_body]
pub(crate) fn now_nanos() -> (now: i128)
    ensures
        min_clock_nanos() <= now <= max_clock_nanos(),
{
    time::OffsetDateTime::now_utc().unix_timestamp_nanos()
}

/// The length of `ms` milliseconds in nanoseconds
/// (`time::Duration::milliseconds`).
pub open spec fn millis_to_nanos(ms: i64) -> int {
    ms * NANOS_PER_MILLI
}

} // verus!
