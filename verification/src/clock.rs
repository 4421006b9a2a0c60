//! The wall clock, read in milliseconds since the Unix epoch.

use std::time::{Duration, SystemTime, UNIX_EPOCH};
use vstd::prelude::*;

verus! {

#[verifier::external_type_specification]
#[verifier::external_body]
pub struct ExSystemTime(SystemTime);

/// `SystemTime::now()`: whatever the clock reads; nothing is promised of it.
#[verifier::external_body]
fn system_now() -> SystemTime {
    SystemTime::now()
}

/// `SystemTime::duration_since(UNIX_EPOCH)`, with the error of a reading
/// before the epoch turned into `None`; nothing is promised of the value.
#[verifier::external_body]
fn since_epoch(t: &SystemTime) -> Option<Duration> {
    match t.duration_since(UNIX_EPOCH) {
        Ok(d) => Some(d),
        Err(_) => None,
    }
}

/// `Duration::as_millis`: the whole milliseconds of the duration.
#[verifier::external_body]
fn whole_millis(d: &Duration) -> u128 {
    d.as_millis()
}

/// Milliseconds since the Unix epoch from an elapsed time, if the clock read
/// after the epoch: `0` when it did not, and the count cast to `i64`
/// (wrapping as the cast does) when it did.
pub fn unix_ms_from(elapsed_ms: Option<u128>) -> (r: i64)
    ensures
        r == match elapsed_ms {
            Some(m) => m as i64,
            None => 0,
        },
{
    match elapsed_ms {
        Some(m) => m as i64,
        None => 0,
    }
}

/// Milliseconds since the Unix epoch, `0` when the clock reads earlier; the
/// count wraps as a cast to `i64` does.
pub fn now_unix_ms() -> i64 {
    let elapsed = match since_epoch(&system_now()) {
        Some(d) => Some(whole_millis(&d)),
        None => None,
    };
    unix_ms_from(elapsed)
}

} // verus!
