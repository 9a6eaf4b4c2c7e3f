//! The clocks and the machine, as far as the library reads them.

use vstd::prelude::*;

verus! {

/// A reading of the system clock, `std::time::SystemTime`; nothing can be
/// read from it but the time since the Unix epoch.
#[verifier::external_type_specification]
#[verifier::external_body]
pub struct ExSystemTime(std::time::SystemTime);

/// The present reading of the system clock, from
/// `std::time::SystemTime::now`. Nothing is promised of it: two readings
/// may differ, and the clock may step backwards.
#[verifier::external_body]
pub(crate) fn read_system_clock() -> std::time::SystemTime {
    std::time::SystemTime::now()
}

/// The time from the Unix epoch to `reading`, from
/// `std::time::SystemTime::duration_since`; `None` where the reading lies
/// before the epoch. Nothing is promised of it.
#[verifier::external_body]
pub(crate) fn since_epoch(reading: &std::time::SystemTime) -> Option<std::time::Duration> {
    match reading.duration_since(std::time::UNIX_EPOCH) {
        Ok(span) => Some(span),
        Err(_) => None,
    }
}

/// The whole seconds of `span`, from `std::time::Duration::as_secs`. A span
/// is opaque to the contracts, so nothing is stated of the number.
#[verifier::external_body]
pub(crate) fn whole_seconds(span: &std::time::Duration) -> u64 {
    span.as_secs()
}

/// Seconds since the Unix epoch, as the system clock reads. A clock set
/// before the epoch reads as zero.
pub(crate) fn unix_time_now() -> u64 {
    let reading = read_system_clock();
    match since_epoch(&reading) {
        Some(span) => whole_seconds(&span),
        None => 0,
    }
}

/// A point of the monotonic clock of `std::time::Instant`; nothing can be
/// read from it but the time that has passed since.
#[verifier::external_type_specification]
#[verifier::external_body]
pub struct ExInstant(std::time::Instant);

/// The present point of the monotonic clock, from `std::time::Instant::now`.
#[verifier::external_body]
pub(crate) fn start_stopwatch() -> std::time::Instant {
    std::time::Instant::now()
}

/// The time that has passed since `start`, from
/// `std::time::Instant::elapsed`. Nothing is promised of it.
#[verifier::external_body]
pub(crate) fn read_stopwatch(start: &std::time::Instant) -> std::time::Duration {
    start.elapsed()
}

/// A copy of a span, from `Clone` of `std::time::Duration`. A span is
/// opaque to the contracts, so nothing is stated of the copy.
pub assume_specification[ <std::time::Duration as Clone>::clone ](span: &std::time::Duration) -> std::time::Duration;

/// A span of `seconds` seconds, from `std::time::Duration::from_secs`. A
/// span is opaque to the contracts, so nothing is stated of it.
#[verifier::external_body]
pub(crate) fn seconds(seconds: u64) -> std::time::Duration {
    std::time::Duration::from_secs(seconds)
}

/// The number of processors the machine offers, from `num_cpus::get`, which
/// documents that it is at least one.
#[verifier::external_body]
pub(crate) fn processor_count() -> (r: usize)
    ensures
        r >= 1,
{
    num_cpus::get()
}

} // verus!
