//! Wall-clock readings. Timestamps are kept for audit only: no content hash
//! and no decision of the engine depends on them.

use std::time::{Duration, SystemTime, SystemTimeError};
use vstd::prelude::*;

verus! {

/// `std::time::SystemTime`, carried through as an opaque value.
#[verifier::external_type_specification]
#[verifier::external_body]
pub struct ExSystemTime(SystemTime);

/// `std::time::SystemTimeError`, carried through as an opaque value.
#[verifier::external_type_specification]
#[verifier::external_body]
pub struct ExSystemTimeError(SystemTimeError);

/// `SystemTime::now` reads the system clock; nothing is claimed of the
/// reading.
pub assume_specification[ SystemTime::now ]() -> (now: SystemTime);

/// `SystemTime::duration_since` measures the time elapsed from `earlier`,
/// or reports that `earlier` is the later of the two; nothing more is
/// claimed.
pub assume_specification[ SystemTime::duration_since ](
    time: &SystemTime,
    earlier: SystemTime,
) -> (elapsed: Result<Duration, SystemTimeError>);

/// `Duration::as_nanos` gives the whole duration in nanoseconds; nothing is
/// claimed of the number.
pub assume_specification[ Duration::as_nanos ](duration: &Duration) -> (nanos: u128);

/// `Duration::as_secs` gives the whole seconds of the duration; nothing is
/// claimed of the number.
pub assume_specification[ Duration::as_secs ](duration: &Duration) -> (secs: u64);

/// Hands out the constant `SystemTime::UNIX_EPOCH`.
#[verifier::external_body]
fn unix_epoch() -> (epoch: SystemTime) {
    SystemTime::UNIX_EPOCH
}

/// Nanoseconds since the Unix epoch. A clock set before the epoch reads as
/// zero.
pub fn current_timestamp_nanos() -> (nanos: u128) {
    match SystemTime::now().duration_since(unix_epoch()) {
        Ok(elapsed) => elapsed.as_nanos(),
        Err(_) => 0,
    }
}

/// Whole seconds since the Unix epoch. A clock set before the epoch reads
/// as zero.
pub fn current_timestamp_secs() -> (secs: u64) {
    match SystemTime::now().duration_since(unix_epoch()) {
        Ok(elapsed) => elapsed.as_secs(),
        Err(_) => 0,
    }
}

/// Nanoseconds in one millisecond.
pub const NANOS_PER_MILLI: u128 = 1_000_000;

/// The milliseconds in `nanos`, capped at the largest `u64`.
pub open spec fn millis_of(nanos: u128) -> u64 {
    if nanos / NANOS_PER_MILLI > u64::MAX {
        u64::MAX
    } else {
        (nanos / NANOS_PER_MILLI) as u64
    }
}

/// Converts a nanosecond reading to milliseconds, capped at the largest
/// `u64`.
pub fn nanos_to_millis(nanos: u128) -> (millis: u64)
    ensures
        millis == millis_of(nanos),
{
    let whole = nanos / NANOS_PER_MILLI;
    if whole > u64::MAX as u128 {
        u64::MAX
    } else {
        whole as u64
    }
}

} // verus!
