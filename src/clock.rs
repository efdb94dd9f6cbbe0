//! Wall-clock time in whole seconds since the Unix epoch.

use vstd::prelude::*;
use std::time::{Duration, SystemTime, SystemTimeError};

verus! {

#[verifier::external_type_specification]
#[verifier::external_body]
pub struct ExSystemTime(SystemTime);

#[verifier::external_type_specification]
#[verifier::external_body]
pub struct ExSystemTimeError(SystemTimeError);

/// Relies on `SystemTime::now`: the current reading of the system clock, of which
/// nothing is known in advance.
pub assume_specification[ SystemTime::now ]() -> SystemTime;

/// Relies on `Duration::as_secs`: the whole seconds of a duration.
pub assume_specification[ Duration::as_secs ](d: &Duration) -> u64;

/// Relies on `SystemTime::duration_since` against `UNIX_EPOCH`: the time elapsed since
/// the epoch, or an error when `t` lies before it.
#[verifier::external_body]
fn elapsed_since_unix_epoch(t: &SystemTime) -> Result<Duration, SystemTimeError> {
    t.duration_since(std::time::UNIX_EPOCH)
}

/// Seconds to report for a clock reading: the elapsed seconds, capped at `i64::MAX`,
/// or 1 when the clock stood before the epoch.
pub fn seconds_from_reading(elapsed: Option<u64>) -> (r: i64)
    ensures
        r == match elapsed {
            Some(s) => if s > i64::MAX {
                i64::MAX as int
            } else {
                s as int
            },
            None => 1,
        },
{
    match elapsed {
        Some(s) => if s > i64::MAX as u64 {
            i64::MAX
        } else {
            s as i64
        },
        None => 1,
    }
}

/// Seconds elapsed since the Unix epoch.
pub fn since_epoch() -> (r: i64)
    ensures
        r >= 0,
{
    let now = SystemTime::now();
    let reading = match elapsed_since_unix_epoch(&now) {
        Ok(d) => Some(d.as_secs()),
        Err(_) => None,
    };
    seconds_from_reading(reading)
}

} // verus!
