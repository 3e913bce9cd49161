// The system clock.
use vstd::prelude::*;
use std::time::{SystemTime, UNIX_EPOCH};

verus! {

/// Trusted: `SystemTime::now().duration_since(UNIX_EPOCH)` in whole seconds; `None` when
/// the clock reads earlier than the epoch. Nothing is claimed of the value: it is the
/// time at the call.
#[verifier::external_body]
pub(crate) fn unix_time_secs() -> (now: Option<u64>) {
    match SystemTime::now().duration_since(UNIX_EPOCH) {
        Ok(d) => Some(d.as_secs()),
        Err(_) => None,
    }
}

/// The current Unix time in seconds; a clock set before the epoch reads as 0.
pub fn now_secs() -> u64 {
    match unix_time_secs() {
        Some(t) => t,
        None => 0,
    }
}

} // verus!
