//! The wall clock, read through `std::time`.

use std::time::{Duration, SystemTime, SystemTimeError, UNIX_EPOCH};
use vstd::prelude::*;

verus! {

#[verifier::external_type_specification]
#[verifier::external_body]
pub struct ExSystemTime(SystemTime);

#[verifier::external_type_specification]
#[verifier::external_body]
pub struct ExSystemTimeError(SystemTimeError);

/// Calls `SystemTime::now`. The reading depends on the machine's clock, so
/// nothing is claimed of it.
#[verifier::external_body]
fn system_time_now() -> SystemTime {
    SystemTime::now()
}

/// Calls `SystemTime::duration_since` with `UNIX_EPOCH`. Whether it fails and
/// the duration it returns depend on the clock reading, so nothing is claimed.
#[verifier::external_body]
fn duration_since_unix_epoch(t: &SystemTime) -> Result<Duration, SystemTimeError> {
    t.duration_since(UNIX_EPOCH)
}

/// Calls `Duration::as_millis`. Durations are opaque here, so nothing is
/// claimed of the number of milliseconds.
#[verifier::external_body]
fn duration_as_millis(d: &Duration) -> u128 {
    d.as_millis()
}

/// Milliseconds since the Unix epoch, truncated to 32 bits, or `None` when the
/// clock reads a time before the epoch.
pub(crate) fn unix_time_millis() -> (r: Option<u32>) {
    let now = system_time_now();
    match duration_since_unix_epoch(&now) {
        Ok(d) => {
            let ms = duration_as_millis(&d);
            Some(ms as u32)
        },
        Err(_) => None,
    }
}

} // verus!
