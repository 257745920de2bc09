//! The wall clock, read through `std::time`.
use vstd::prelude::*;
use std::time::{SystemTime, SystemTimeError, UNIX_EPOCH};

verus! {

#[verifier::external_type_specification]
#[verifier::external_body]
pub struct ExSystemTime(SystemTime);

#[verifier::external_type_specification]
#[verifier::external_body]
pub struct ExSystemTimeError(SystemTimeError);

/// `UNIX_EPOCH`, the time the clock counts from; nothing is stated of it.
#[verifier::external_body]
fn unix_epoch() -> SystemTime {
    UNIX_EPOCH
}

/// `SystemTime::now`: the time depends on the machine, so nothing is stated.
pub assume_specification[ std::time::SystemTime::now ]() -> std::time::SystemTime;

/// `SystemTime::duration_since`: fails when `earlier` is later; nothing is
/// stated of the outcome.
pub assume_specification[ std::time::SystemTime::duration_since ](t: &std::time::SystemTime, earlier: std::time::SystemTime) -> Result<core::time::Duration, std::time::SystemTimeError>;

/// `Duration::as_secs`: nothing is stated of the result.
pub assume_specification[ core::time::Duration::as_secs ](d: &core::time::Duration) -> u64;

/// The current Unix time in whole seconds, or `None` when the clock reads
/// earlier than the Unix epoch.
pub fn now() -> (r: Option<u64>) {
    match SystemTime::now().duration_since(unix_epoch()) {
        Ok(d) => Some(d.as_secs()),
        Err(_) => None,
    }
}

} // verus!
