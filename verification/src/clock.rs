//! The wall clock, in whole seconds since the Unix epoch.

use std::time::{Duration, SystemTime, SystemTimeError};
use vstd::prelude::*;

verus! {

/// Declares `std::time::SystemTime`, an opaque clock reading.
#[verifier::external_type_specification]
#[verifier::external_body]
pub struct ExSystemTime(SystemTime);

/// Declares `std::time::SystemTimeError`, an opaque error.
#[verifier::external_type_specification]
#[verifier::external_body]
pub struct ExSystemTimeError(SystemTimeError);

/// `SystemTime::now` reads the system clock: nothing is claimed of the reading.
pub assume_specification[ SystemTime::now ]() -> SystemTime;

/// `SystemTime::duration_since` is the time elapsed from `earlier` to `self_`,
/// or an error when `earlier` is later: nothing is claimed of it.
pub assume_specification[ SystemTime::duration_since ](
    self_: &SystemTime,
    earlier: SystemTime,
) -> Result<Duration, SystemTimeError>;

/// The constant `std::time::UNIX_EPOCH`: nothing is claimed of it.
#[verifier::external_body]
fn unix_epoch() -> SystemTime {
    std::time::UNIX_EPOCH
}

/// `Duration::as_secs` is the whole seconds of the duration: nothing is claimed of it.
pub assume_specification[ Duration::as_secs ](self_: &Duration) -> u64;

/// The current time in seconds since the Unix epoch (zero if the clock reads
/// earlier than the epoch).
pub fn current_time() -> u64 {
    let start = SystemTime::now();
    match start.duration_since(unix_epoch()) {
        Ok(elapsed) => elapsed.as_secs(),
        Err(_) => 0,
    }
}

} // verus!
