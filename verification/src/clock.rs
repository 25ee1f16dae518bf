//! Readings of the system clock. Each one depends on the moment it is taken,
//! so nothing here promises a particular value.

use vstd::prelude::*;

use std::time::{Duration, Instant, SystemTime};

verus! {

#[verifier::external_type_specification]
#[verifier::external_body]
pub struct ExInstant(Instant);

#[verifier::external_type_specification]
#[verifier::external_body]
pub struct ExSystemTime(SystemTime);

/// The current moment on the monotonic clock, from `Instant::now`.
#[verifier::external_body]
pub fn instant_now() -> (r: Instant) {
    Instant::now()
}

/// The current wall-clock time, from `SystemTime::now`.
#[verifier::external_body]
pub fn system_now() -> (r: SystemTime) {
    SystemTime::now()
}

/// Time passed since `at`, from `Instant::elapsed`.
#[verifier::external_body]
pub fn elapsed_since(at: &Instant) -> (r: Duration) {
    at.elapsed()
}

/// Whole milliseconds in `d`, from `Duration::as_millis`. A `Duration` is
/// opaque here, so nothing is stated of the figure.
#[verifier::external_body]
fn whole_millis(d: &Duration) -> (r: u128) {
    d.as_millis()
}

/// Whole seconds in `d`, from `Duration::as_secs`. A `Duration` is opaque
/// here, so nothing is stated of the figure.
#[verifier::external_body]
fn whole_seconds(d: &Duration) -> (r: u64) {
    d.as_secs()
}

/// The time from the Unix epoch to `at`, from `SystemTime::duration_since`;
/// `None` for a moment before the epoch.
#[verifier::external_body]
fn since_epoch(at: &SystemTime) -> (r: Option<Duration>) {
    match at.duration_since(std::time::UNIX_EPOCH) {
        Ok(since) => Some(since),
        Err(_) => None,
    }
}

/// A count of milliseconds held within `u64`: a longer time reads as
/// `u64::MAX`.
pub fn capped_millis(millis: u128) -> (r: u64)
    ensures
        r == (if millis > u64::MAX { u64::MAX as int } else { millis as int }),
{
    if millis > u64::MAX as u128 {
        u64::MAX
    } else {
        millis as u64
    }
}

/// Whole seconds since the Unix epoch, given the seconds to a moment when it
/// is not before the epoch: zero for a moment before it.
pub fn seconds_or_zero(seconds: Option<u64>) -> (r: u64)
    ensures
        r == match seconds {
            Some(s) => s,
            None => 0,
        },
{
    match seconds {
        Some(s) => s,
        None => 0,
    }
}

/// Whole milliseconds passed since `at`, held within `u64`.
pub fn millis_since(at: &Instant) -> (r: u64) {
    let passed = elapsed_since(at);
    capped_millis(whole_millis(&passed))
}

/// Whole seconds from the Unix epoch to `at`; zero for a moment before the
/// epoch.
pub fn unix_seconds(at: &SystemTime) -> (r: u64) {
    let seconds = match since_epoch(at) {
        Some(since) => Some(whole_seconds(&since)),
        None => None,
    };
    seconds_or_zero(seconds)
}

} // verus!
