//! The monotonic clock, and the elapsed time between two readings of it.

use std::time::{Duration, Instant};
use vstd::prelude::*;

verus! {

/// `std::time::Instant`: a reading of the monotonic clock. Nothing is known
/// of what it holds.
#[verifier::external_type_specification]
#[verifier::external_body]
pub struct ExInstant(Instant);

/// `Instant::now` reads the clock. What it returns depends on when it is
/// called, so nothing is claimed of it.
pub assume_specification[ Instant::now ]() -> (now: Instant)
;

/// `Instant::duration_since` gives the time from `earlier` to `this`, and zero
/// if `earlier` is the later of the two. Nothing is claimed of the duration.
pub assume_specification[ Instant::duration_since ](this: &Instant, earlier: Instant) -> (elapsed:
    Duration)
;

/// `Duration::as_micros` gives the whole microseconds in a duration. Nothing
/// is claimed of the number.
pub assume_specification[ Duration::as_micros ](this: &Duration) -> (micros: u128)
;

/// The low 64 bits of a count of microseconds.
pub fn micros_to_u64(micros: u128) -> (low: u64)
    ensures
        low == micros % 0x1_0000_0000_0000_0000,
{
    assert(micros as u64 == micros % 0x1_0000_0000_0000_0000) by (bit_vector);
    #[verifier::truncate]
    (micros as u64)
}

/// The whole microseconds from `start` to `finish`, modulo 2^64.
pub(crate) fn elapsed_micros(start: Instant, finish: Instant) -> (micros: u64) {
    micros_to_u64(finish.duration_since(start).as_micros())
}

} // verus!
