//! Reading the clocks. What a clock reads depends on the moment, so nothing
//! is claimed of the readings; the code that uses them is verified for every
//! value they may have.

use vstd::prelude::*;
use std::time::{Duration, Instant, SystemTime};

verus! {

/// `std::time::Instant`, carried opaquely.
#[verifier::external_type_specification]
#[verifier::external_body]
pub struct ExInstant(Instant);

/// `std::time::SystemTime`, carried opaquely.
#[verifier::external_type_specification]
#[verifier::external_body]
pub struct ExSystemTime(SystemTime);

/// `Duration::as_secs`: a `Duration` is opaque here, so nothing is claimed.
pub assume_specification[ Duration::as_secs ](d: &Duration) -> u64;

/// `Duration::as_millis`: a `Duration` is opaque here, so nothing is claimed.
pub assume_specification[ Duration::as_millis ](d: &Duration) -> u128;

/// `Duration::as_nanos`: a `Duration` is opaque here, so nothing is claimed.
pub assume_specification[ Duration::as_nanos ](d: &Duration) -> u128;

/// Calls `Instant::now`.
#[verifier::external_body]
pub(crate) fn instant_now() -> Instant {
    Instant::now()
}

/// Calls `Instant::elapsed`: the time since `since`.
#[verifier::external_body]
pub(crate) fn elapsed_since(since: &Instant) -> Duration {
    since.elapsed()
}

/// Calls `SystemTime::now`.
#[verifier::external_body]
pub(crate) fn system_now() -> SystemTime {
    SystemTime::now()
}

/// Calls `SystemTime::duration_since(UNIX_EPOCH)`: `None` where the clock
/// reads before the epoch.
#[verifier::external_body]
pub(crate) fn since_epoch(t: &SystemTime) -> Option<Duration> {
    t.duration_since(std::time::UNIX_EPOCH).ok()
}

} // verus!
