//! Wall-clock and monotonic-clock access.

use vstd::prelude::*;

verus! {

#[verifier::external_type_specification]
#[verifier::external_body]
pub struct ExSystemTime(std::time::SystemTime);

#[verifier::external_type_specification]
#[verifier::external_body]
pub struct ExSystemTimeError(std::time::SystemTimeError);

#[verifier::external_type_specification]
#[verifier::external_body]
pub struct ExInstant(std::time::Instant);

/// Calls `std::time::SystemTime::now`. The result is the current wall-clock
/// time, so nothing is promised of it.
#[verifier::external_body]
pub(crate) fn system_time_now() -> (t: std::time::SystemTime) {
    std::time::SystemTime::now()
}

/// Calls `SystemTime::duration_since(UNIX_EPOCH)`. Whether it succeeds
/// depends on the clock reading in `t`, which Verus cannot see: nothing is
/// promised of the result.
#[verifier::external_body]
pub(crate) fn duration_since_unix_epoch(
    t: &std::time::SystemTime,
) -> (r: Result<std::time::Duration, std::time::SystemTimeError>) {
    t.duration_since(std::time::UNIX_EPOCH)
}

/// Calls `Duration::as_nanos`, the whole number of nanoseconds in `d`.
/// The duration is opaque here, so nothing is promised of the number.
#[verifier::external_body]
pub(crate) fn duration_as_nanos(d: &std::time::Duration) -> (n: u128) {
    d.as_nanos()
}

/// Calls `std::time::Instant::now`, a reading of the monotonic clock:
/// nothing is promised of it.
#[verifier::external_body]
pub(crate) fn instant_now() -> (t: std::time::Instant) {
    std::time::Instant::now()
}

} // verus!
