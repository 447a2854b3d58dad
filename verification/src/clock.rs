//! The two clocks the gateway reads.
//!
//! Nothing is stated of either reading: it depends on when the call is made.

use chrono::Utc;
use std::time::Instant;
use vstd::prelude::*;

verus! {

/// `std::time::Instant`: a reading of the monotonic clock.
#[verifier::external_type_specification]
#[verifier::external_body]
pub struct ExInstant(Instant);

/// `Instant::now`: the monotonic clock, read now.
#[verifier::external_body]
pub(crate) fn instant_now() -> (now: Instant) {
    Instant::now()
}

/// `chrono::Utc::now` and `DateTime::timestamp`: seconds since the Unix
/// epoch, read now.
#[verifier::external_body]
pub(crate) fn unix_timestamp() -> (seconds: i64) {
    Utc::now().timestamp()
}

} // verus!
