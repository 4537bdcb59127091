use std::time::{Duration, SystemTime, SystemTimeError};
use vstd::prelude::*;

verus! {

#[verifier::external_type_specification]
#[verifier::external_body]
pub struct ExSystemTime(SystemTime);

#[verifier::external_type_specification]
#[verifier::external_body]
pub struct ExSystemTimeError(SystemTimeError);

/// Trusted: `SystemTime::now`. Nothing is stated of the time it reads.
#[verifier::external_body]
fn system_now() -> SystemTime {
    SystemTime::now()
}

/// Trusted: `SystemTime::duration_since` with `UNIX_EPOCH`; nothing is
/// stated of its result, which depends on the clock.
#[verifier::external_body]
fn since_unix_epoch(t: &SystemTime) -> Result<Duration, SystemTimeError> {
    t.duration_since(std::time::UNIX_EPOCH)
}

/// Trusted: `Duration::as_secs`; nothing is stated, as `Duration` is opaque
/// here.
#[verifier::external_body]
fn whole_seconds(d: &Duration) -> u64 {
    d.as_secs()
}

/// The timestamp that a reading of the clock gives: the whole seconds since
/// the Unix epoch, taken as an `i64` (two's complement), or 0 where the
/// clock stands before the epoch.
pub open spec fn timestamp_of(secs: Option<u64>) -> i64 {
    match secs {
        Some(s) => s as i64,
        None => 0,
    }
}

pub fn timestamp(secs: Option<u64>) -> (t: i64)
    ensures
        t == timestamp_of(secs),
{
    match secs {
        Some(s) => s as i64,
        None => 0,
    }
}

/// Seconds since the Unix epoch now, or 0 where the clock stands before it.
pub fn now_unix() -> (t: i64)
    ensures
        exists|secs: Option<u64>| t == timestamp_of(secs),
{
    let now = system_now();
    let secs = match since_unix_epoch(&now) {
        Ok(d) => Some(whole_seconds(&d)),
        Err(_) => None,
    };
    timestamp(secs)
}

} // verus!
