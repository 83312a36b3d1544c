//! The wall clock, read where an event is stamped.

use vstd::prelude::*;

verus! {

/// Relies on chrono::Utc::now: the current wall-clock time, in
/// milliseconds since the Unix epoch.  The value depends on the moment of
/// the call, so nothing is promised of it.
#[verifier::external_body]
pub(crate) fn now_millis() -> (t: i64) {
    chrono::Utc::now().timestamp_millis()
}

} // verus!
