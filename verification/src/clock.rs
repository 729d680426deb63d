//! The wall clock.

use vstd::prelude::*;

verus! {

/// Calls `chrono::Utc::now().timestamp()`: the current Unix time in seconds.
/// Nothing is promised of the value: it depends on the time of the call.
#[verifier::external_body]
pub(crate) fn unix_now() -> (t: i64) {
    chrono::Utc::now().timestamp()
}

} // verus!
