//! Reading the wall clock, used to seed randomised selection.
use vstd::prelude::*;
use std::time::{Duration, SystemTime, SystemTimeError};

verus! {

#[verifier::external_type_specification]
#[verifier::external_body]
pub struct ExSystemTime(SystemTime);

#[verifier::external_type_specification]
#[verifier::external_body]
pub struct ExSystemTimeError(SystemTimeError);

/// `SystemTime::now`: the current wall-clock time. Nothing is claimed of it.
#[verifier::external_body]
fn system_time_now() -> SystemTime {
    SystemTime::now()
}

/// `SystemTime::duration_since` the Unix epoch. Nothing is claimed of the
/// result: it depends on the clock.
#[verifier::external_body]
fn duration_since_epoch(t: &SystemTime) -> Result<Duration, SystemTimeError> {
    t.duration_since(std::time::UNIX_EPOCH)
}

/// `Duration::as_nanos`. Nothing is claimed: a `Duration` has no value that the
/// contracts here can speak of.
#[verifier::external_body]
fn duration_as_nanos(d: &Duration) -> u128 {
    d.as_nanos()
}

/// Nanoseconds since the Unix epoch, truncated to `usize`, or 0 when the clock
/// reads earlier than the epoch. Any value may come back.
pub fn now_nanos() -> usize {
    let now = system_time_now();
    match duration_since_epoch(&now) {
        Ok(d) => {
            let n = duration_as_nanos(&d);
            n as usize
        },
        Err(_) => 0,
    }
}

} // verus!
