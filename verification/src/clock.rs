//! Wall-clock time in milliseconds since the Unix epoch, for timestamps of
//! saved words and names of debug files.

use vstd::prelude::*;
use std::time::{Duration, SystemTime, SystemTimeError};

verus! {

#[verifier::external_type_specification]
#[verifier::external_body]
pub struct ExSystemTime(SystemTime);

#[verifier::external_type_specification]
#[verifier::external_body]
pub struct ExSystemTimeError(SystemTimeError);

/// `SystemTime::now`: the current time of the system clock.
#[verifier::external_body]
fn system_time_now() -> (r: SystemTime) {
    SystemTime::now()
}

/// `SystemTime::duration_since` the Unix epoch; an error when the time lies
/// before the epoch.
#[verifier::external_body]
fn duration_since_epoch(time: &SystemTime) -> (r: Result<Duration, SystemTimeError>) {
    time.duration_since(std::time::UNIX_EPOCH)
}

/// `Duration::as_millis`: the whole milliseconds of a duration.
#[verifier::external_body]
fn duration_millis(duration: &Duration) -> (r: u128) {
    duration.as_millis()
}

/// Milliseconds since the Unix epoch, or 0 when the clock is set before it.
pub fn now_ms() -> (r: u128) {
    match duration_since_epoch(&system_time_now()) {
        Ok(duration) => duration_millis(&duration),
        Err(_) => 0,
    }
}

} // verus!
