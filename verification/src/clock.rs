//! Wall-clock access. The time of day is an input from the machine: nothing
//! is promised about the value that comes back.

use std::time::{Duration, SystemTime, UNIX_EPOCH};
use vstd::prelude::*;

verus! {

#[verifier::external_type_specification]
#[verifier::external_body]
pub struct ExSystemTime(SystemTime);

/// Calls `SystemTime::now`; the reading depends on the machine's clock, so
/// nothing is stated of it.
#[verifier::external_body]
fn system_time_now() -> SystemTime {
    SystemTime::now()
}

/// Calls `SystemTime::duration_since(UNIX_EPOCH)`; `None` stands for the
/// error that std returns for a clock set before the epoch. Nothing is stated
/// of the duration, which depends on the clock reading.
#[verifier::external_body]
fn since_unix_epoch(t: &SystemTime) -> Option<Duration> {
    t.duration_since(UNIX_EPOCH).ok()
}

/// Calls `Duration::as_secs`. Nothing is stated of the whole seconds, since the
/// duration is opaque here.
#[verifier::external_body]
fn whole_seconds(d: &Duration) -> u64 {
    d.as_secs()
}

/// Seconds since the Unix epoch, or 0 when the clock reads before the epoch.
pub fn now() -> u64 {
    let t = system_time_now();
    match since_unix_epoch(&t) {
        Some(d) => whole_seconds(&d),
        None => 0,
    }
}

} // verus!
