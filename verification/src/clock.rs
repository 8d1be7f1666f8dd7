//! Wall-clock timestamps.
//!
//! Timestamps are microseconds relative to the Unix epoch, read from the
//! system clock through the `chrono` crate. Nothing is promised of the value:
//! no contract of the library depends on what the clock returns.

use vstd::prelude::*;

verus! {

/// Relies on `chrono::Utc::now` (read as microseconds since the Unix epoch).
/// The result depends on the wall clock, so nothing is promised of it.
#[verifier::external_body]
pub(crate) fn now_micros() -> i64 {
    chrono::Utc::now().timestamp_micros()
}

} // verus!
