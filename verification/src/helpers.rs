//! Small helpers for timing a step.

use std::time::{Duration, Instant};
use vstd::prelude::*;

verus! {

/// `std::time::Instant`, a reading of the monotonic clock. Nothing is known
/// of what it holds.
#[verifier::external_type_specification]
#[verifier::external_body]
pub struct ExInstant(Instant);

/// `Instant::elapsed` reads the clock, so nothing is claimed of the
/// duration it returns.
pub assume_specification[ Instant::elapsed ](start: &Instant) -> (d: Duration)
;

/// `Duration::as_secs`: the whole seconds of a duration. No claim is made.
pub assume_specification[ Duration::as_secs ](d: &Duration) -> (secs: u64)
;

/// `Duration::subsec_micros`: the part of a duration below one second, in
/// whole microseconds, which std documents to be less than one million.
pub assume_specification[ Duration::subsec_micros ](d: &Duration) -> (micros: u32)
    ensures
        micros < 1_000_000,
;

/// The microseconds in `secs` whole seconds and `subsec_micros` more.
pub open spec fn total_micros(secs: u64, subsec_micros: u32) -> int {
    secs * 1_000_000 + subsec_micros
}

/// The microseconds in `secs` seconds and `subsec_micros` microseconds, or
/// `u64::MAX` where that number does not fit.
pub fn whole_micros(secs: u64, subsec_micros: u32) -> (micros: u64)
    ensures
        total_micros(secs, subsec_micros) <= u64::MAX ==> micros == total_micros(
            secs,
            subsec_micros,
        ),
        total_micros(secs, subsec_micros) > u64::MAX ==> micros == u64::MAX,
{
    match secs.checked_mul(1_000_000) {
        Some(scaled) => match scaled.checked_add(subsec_micros as u64) {
            Some(micros) => micros,
            None => u64::MAX,
        },
        None => u64::MAX,
    }
}

/// The time that has passed since `start`, in microseconds as
/// [`whole_micros`] counts them. The value depends on the clock, so the
/// contract says nothing of it.
pub fn elapsed_ms(start: &Instant) -> u64 {
    let duration = start.elapsed();
    whole_micros(duration.as_secs(), duration.subsec_micros())
}

} // verus!
