//! The wall clock.

use vstd::prelude::*;

verus! {

/// Seconds since the Unix epoch, now.
///
/// Calls `chrono::Utc::now().timestamp()`, which is not negative on a clock
/// set after 1970. Nothing is claimed of the value: it is the time.
#[verifier::external_body]
pub fn now_unix_secs() -> u64 {
    chrono::Utc::now().timestamp() as u64
}

/// Milliseconds since the Unix epoch, now, as `chrono` reports them
/// (`chrono::Utc::now().timestamp_millis()`). Nothing is claimed of the
/// value: it is the time.
#[verifier::external_body]
pub fn now_unix_millis() -> i64 {
    chrono::Utc::now().timestamp_millis()
}

} // verus!
