//! Readings of the clocks: the monotonic one, by which a round is timed, and
//! the local wall clock, by which a score is dated.

use chrono::Local;
use std::time::{Duration, Instant};
use vstd::prelude::*;

verus! {

/// Trusted: makes `std::time::Instant` known as a type whose values are only
/// carried along. Nothing is claimed of what an instant holds.
#[verifier::external_type_specification]
#[verifier::external_body]
pub struct ExInstant(Instant);

/// The present instant.
///
/// Trusted: the body is `Instant::now()`. Nothing is claimed of the result.
#[verifier::external_body]
pub(crate) fn instant_now() -> Instant {
    Instant::now()
}

/// The time that has passed since `start`.
///
/// Trusted: the body is `Instant::elapsed`. Nothing is claimed of the result,
/// which differs from one reading to the next.
#[verifier::external_body]
pub(crate) fn elapsed_since(start: &Instant) -> Duration {
    start.elapsed()
}

/// The length of `duration` in whole nanoseconds.
///
/// Trusted: the body is `Duration::as_nanos`. Nothing is claimed of the
/// result.
#[verifier::external_body]
pub(crate) fn whole_nanos(duration: &Duration) -> u128 {
    duration.as_nanos()
}

/// A date and time as the local wall clock shows it.
#[derive(Clone, Copy, Debug, PartialEq, Eq, Structural)]
pub struct LocalTimestamp {
    /// Whole seconds since the start of 1970 in UTC.
    pub unix_seconds: i64,
    /// Nanoseconds past the whole second.
    pub subsec_nanos: u32,
    /// The seconds by which local time is ahead of UTC.
    pub utc_offset_seconds: i32,
}

/// The present date and time in the local time zone.
///
/// Trusted: the body is `chrono::Local::now()`, read off field by field with
/// `timestamp`, `timestamp_subsec_nanos` and `offset().local_minus_utc()`.
/// Nothing is claimed of the result.
#[verifier::external_body]
pub(crate) fn local_now() -> LocalTimestamp {
    let now = Local::now();
    LocalTimestamp {
        unix_seconds: now.timestamp(),
        subsec_nanos: now.timestamp_subsec_nanos(),
        utc_offset_seconds: now.offset().local_minus_utc(),
    }
}

} // verus!
