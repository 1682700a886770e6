use vstd::prelude::*;

verus! {

#[verifier::external_type_specification]
#[verifier::external_body]
pub struct ExInstant(std::time::Instant);

#[verifier::external_type_specification]
#[verifier::external_body]
pub struct ExSystemTime(std::time::SystemTime);

/// Relies on `std::time::Instant::now`: a reading of the monotonic clock.
/// Nothing is known of the value.
pub assume_specification[ std::time::Instant::now ]() -> std::time::Instant;

/// Relies on `Instant::saturating_duration_since`: the time from `earlier`
/// to `self`, zero where `self` is not later.  Nothing is known of the value.
pub assume_specification[ std::time::Instant::saturating_duration_since ](
    this: &std::time::Instant,
    earlier: std::time::Instant,
) -> std::time::Duration;

/// Relies on `Duration::as_micros`: the whole microseconds of a duration.
pub assume_specification[ std::time::Duration::as_micros ](this: &std::time::Duration) -> u128;

/// Relies on `std::time::SystemTime::now`: a reading of the wall clock.
/// Nothing is known of the value.
pub assume_specification[ std::time::SystemTime::now ]() -> std::time::SystemTime;

/// Relies on chrono's `From<SystemTime> for DateTime<Utc>` and
/// `DateTime::timestamp`: the whole seconds since the Unix epoch of a
/// wall-clock reading, negative for one before 1970.  The conversion fails
/// only for a reading more than 262,000 years from 1970, which no system
/// clock holds (Linux keeps its real-time clock within the years 1970 to
/// 2262).  Nothing is known of the value.
#[verifier::external_body]
pub(crate) fn unix_seconds_at(t: std::time::SystemTime) -> (r: i64) {
    chrono::DateTime::<chrono::Utc>::from(t).timestamp()
}

/// The current wall-clock time in whole seconds since the Unix epoch.
pub(crate) fn unix_seconds() -> (r: i64) {
    unix_seconds_at(std::time::SystemTime::now())
}

} // verus!
