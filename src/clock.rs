//! The wall clock, read in whole seconds since the Unix epoch.

use vstd::prelude::*;

verus! {

#[verifier::external_type_specification]
#[verifier::external_body]
pub struct ExSystemTime(std::time::SystemTime);

/// Relies on std::time::SystemTime::now: a reading of the system clock.
/// Nothing is promised of the reading.
#[verifier::external_body]
fn wall_clock() -> (r: std::time::SystemTime) {
    std::time::SystemTime::now()
}

/// Relies on std::time::SystemTime::duration_since with UNIX_EPOCH: the whole
/// seconds since the epoch, or nothing for a reading before it.
#[verifier::external_body]
fn secs_since_epoch(t: std::time::SystemTime) -> (r: Option<u64>) {
    t.duration_since(std::time::UNIX_EPOCH).ok().map(|d| d.as_secs())
}

/// The current time in whole seconds since the Unix epoch; a clock set
/// before the epoch reads as second zero.
pub fn now_secs() -> (r: u64) {
    match secs_since_epoch(wall_clock()) {
        Some(s) => s,
        None => 0,
    }
}

} // verus!
