//! The system clock, read in one place.
//!
//! Each reading depends on the moment of the call, so nothing is claimed of
//! what the clock returns; the library only formats it.
use vstd::prelude::*;

verus! {

#[verifier::external_type_specification]
#[verifier::external_body]
pub struct ExSystemTime(std::time::SystemTime);

#[verifier::external_type_specification]
#[verifier::external_body]
pub struct ExSystemTimeError(std::time::SystemTimeError);

/// Wraps `SystemTime::now`, the current reading of the system clock.
#[verifier::external_body]
fn now() -> std::time::SystemTime {
    std::time::SystemTime::now()
}

/// Wraps `SystemTime::duration_since` with `UNIX_EPOCH`: the time elapsed
/// since the epoch, or an error when the reading is earlier than it.
#[verifier::external_body]
fn since_epoch(t: &std::time::SystemTime) -> Result<std::time::Duration, std::time::SystemTimeError> {
    t.duration_since(std::time::UNIX_EPOCH)
}

/// Wraps `Duration::as_millis`, the whole milliseconds of a duration.
#[verifier::external_body]
fn whole_millis(d: &std::time::Duration) -> u128 {
    d.as_millis()
}

/// Wraps `Duration::as_secs`, the whole seconds of a duration.
#[verifier::external_body]
fn whole_secs(d: &std::time::Duration) -> u64 {
    d.as_secs()
}

/// Whole milliseconds since the Unix epoch, 0 when the clock reads earlier.
pub(crate) fn unix_millis() -> u128 {
    match since_epoch(&now()) {
        Ok(d) => whole_millis(&d),
        Err(_) => 0,
    }
}

/// Whole seconds since the Unix epoch, 0 when the clock reads earlier.
pub(crate) fn unix_secs() -> u64 {
    match since_epoch(&now()) {
        Ok(d) => whole_secs(&d),
        Err(_) => 0,
    }
}

} // verus!
