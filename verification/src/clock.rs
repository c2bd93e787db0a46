use vstd::prelude::*;
use std::time::{Instant, SystemTime, UNIX_EPOCH};

verus! {

/// A point on the monotonic clock.
#[verifier::external_type_specification]
#[verifier::external_body]
pub struct ExInstant(Instant);

/// A point on the system (wall) clock.
#[verifier::external_type_specification]
#[verifier::external_body]
pub struct ExSystemTime(SystemTime);

/// `Instant::now`: the current monotonic time. Nothing is stated of it.
#[verifier::external_body]
pub(crate) fn instant_now() -> Instant {
    Instant::now()
}

/// `Instant::elapsed`, in whole milliseconds. Nothing is stated of it: it
/// depends on the clock.
#[verifier::external_body]
pub(crate) fn millis_since(t: &Instant) -> u128 {
    t.elapsed().as_millis()
}

/// `SystemTime::now`: the current wall-clock time. Nothing is stated of it.
#[verifier::external_body]
pub(crate) fn system_now() -> SystemTime {
    SystemTime::now()
}

/// `SystemTime::duration_since(UNIX_EPOCH)` in whole seconds, or `None`
/// when the time lies before the epoch. Nothing more is stated of it.
#[verifier::external_body]
pub(crate) fn unix_secs(t: &SystemTime) -> Option<u64> {
    match t.duration_since(UNIX_EPOCH) {
        Ok(d) => Some(d.as_secs()),
        Err(_) => None,
    }
}

} // verus!
