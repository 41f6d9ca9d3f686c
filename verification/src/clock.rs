//! The two clocks that the library reads: the one that statements are
//! timed by, and the calendar that tokens are dated by.

use vstd::prelude::*;

verus! {

/// `std::time::Instant`: a moment of the monotonic clock. Nothing is known
/// of what it holds.
#[verifier::external_type_specification]
#[verifier::external_body]
pub struct ExInstant(std::time::Instant);

/// `std::time::Instant::now`: the present moment of the monotonic clock.
/// Nothing is claimed of it.
#[verifier::external_body]
pub(crate) fn start() -> (r: std::time::Instant) {
    std::time::Instant::now()
}

/// `std::time::Instant::elapsed`: the time that has passed since a moment.
/// Nothing is claimed of it.
#[verifier::external_body]
pub(crate) fn elapsed(since: &std::time::Instant) -> (r: std::time::Duration) {
    since.elapsed()
}

/// `std::time::Duration::as_nanos`: a length of time in nanoseconds.
/// Nothing is claimed of it.
#[verifier::external_body]
pub(crate) fn nanos_of(d: &std::time::Duration) -> (r: u128) {
    d.as_nanos()
}

/// The present moment, read from `std::time::SystemTime::now` and turned
/// into seconds since the first of January 1970 by chrono's
/// `DateTime::<Utc>::from` and `DateTime::timestamp`. A clock that stands
/// before 1970 gives a negative number. Nothing is claimed of the result.
#[verifier::external_body]
pub(crate) fn unix_now() -> (r: i64) {
    chrono::DateTime::<chrono::Utc>::from(std::time::SystemTime::now()).timestamp()
}

} // verus!
