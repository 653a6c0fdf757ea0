//! The wall clock.

use vstd::prelude::*;

verus! {

/// The current time in milliseconds since the Unix epoch: what
/// `chrono::Utc::now` reads off the system clock, turned into a number by
/// `DateTime::timestamp_millis`.
///
/// Nothing is promised of the value: the clock may be set at any moment,
/// so two calls may differ in either direction. `Utc::now` does not return
/// on a machine whose clock stands before 1970.
#[verifier::external_body]
pub(crate) fn now_millis() -> (t: i64) {
    chrono::Utc::now().timestamp_millis()
}

} // verus!
