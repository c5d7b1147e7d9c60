//! Wall-clock time.

use std::time::{Duration, SystemTime};
use vstd::prelude::*;

verus! {

#[verifier::external_type_specification]
#[verifier::external_body]
pub struct ExSystemTime(SystemTime);

/// Calls `SystemTime::now`.  The result depends on the time of the call,
/// so nothing is claimed of it.
#[verifier::external_body]
fn system_now() -> (r: SystemTime) {
    SystemTime::now()
}

/// Calls `SystemTime::duration_since` from the Unix epoch: `None` where the
/// time is before the epoch.  Nothing more is claimed of the duration.
#[verifier::external_body]
fn since_epoch(t: &SystemTime) -> (r: Option<Duration>) {
    t.duration_since(std::time::UNIX_EPOCH).ok()
}

/// Calls `Duration::as_millis`; nothing is claimed of the count.
#[verifier::external_body]
fn duration_millis(d: &Duration) -> (r: u128) {
    d.as_millis()
}

/// Milliseconds since the Unix epoch: `None` when the clock reads before the
/// epoch or the count does not fit in an `i64`.  The result depends on the
/// time of the call, so nothing more is claimed of it.
pub fn now_millis() -> (r: Option<i64>) {
    match since_epoch(&system_now()) {
        None => None,
        Some(d) => {
            let ms = duration_millis(&d);
            if ms <= 9223372036854775807u128 {
                Some(ms as i64)
            } else {
                None
            }
        },
    }
}

} // verus!
