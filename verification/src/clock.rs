//! Points in time, and the one place where the clock is read.

use chrono::Utc;
use vstd::prelude::*;

verus! {

/// An instant in UTC: whole seconds since the Unix epoch (negative before
/// it) and the nanoseconds into that second.
#[derive(Clone, Copy, Debug, PartialEq, Eq, Structural)]
pub struct Timestamp {
    pub secs: i64,
    pub nanos: u32,
}

/// The present moment. Calls `chrono::Utc::now` and keeps what the
/// instant's `timestamp` and `timestamp_subsec_nanos` give.
///
/// Nothing is proved or promised of the result: it depends on when the
/// call is made. `Utc::now` stops the program where the system clock is set
/// before the Unix epoch, or beyond the years that chrono can express.
#[verifier::external_body]
pub(crate) fn current_time() -> (now: Timestamp) {
    let now = Utc::now();
    Timestamp { secs: now.timestamp(), nanos: now.timestamp_subsec_nanos() }
}

} // verus!
