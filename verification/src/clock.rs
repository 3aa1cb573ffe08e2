//! The wall clock.

use vstd::prelude::*;

verus! {

/// Calls `chrono::Utc::now` and returns its `timestamp_millis`, the
/// milliseconds since the Unix epoch. Nothing is claimed of the value: it
/// depends on when the call is made.
#[verifier::external_body]
pub fn now() -> (millis: u128) {
    chrono::Utc::now().timestamp_millis() as u128
}

} // verus!
