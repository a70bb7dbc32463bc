//! Wall-clock sampling.
//!
//! Time values carry an opaque `std::time::Instant`.  Nothing is assumed
//! about the clock: the wrappers below promise nothing of their results,
//! and the evaluator's contracts treat every string printed from a time
//! value as arbitrary.

use vstd::prelude::*;

use std::time::Instant;

verus! {

#[verifier::external_type_specification]
#[verifier::external_body]
pub struct ExInstant(Instant);

/// Relies on `std::time::Instant::now`.  No contract: the clock may
/// return anything.
#[verifier::external_body]
pub fn time_now() -> (r: Instant) {
    Instant::now()
}

/// Relies on `std::time::Instant::elapsed` and `Duration`'s debug
/// formatting.  No contract: the text depends on the clock.
#[verifier::external_body]
pub fn time_debug_str(t: &Option<Instant>) -> (r: String) {
    match t {
        Some(i) => format!("{:?}", i.elapsed()),
        None => format!("{:?}", std::time::Duration::from_secs(0)),
    }
}

/// Relies on `std::time::Instant::elapsed` and `Duration::as_secs_f64`.
/// No contract: the text depends on the clock.
#[verifier::external_body]
pub fn time_secs_str(t: &Option<Instant>) -> (r: String) {
    match t {
        Some(i) => format!("{}", i.elapsed().as_secs_f64()),
        None => format!("{}", std::time::Duration::from_secs(0).as_secs_f64()),
    }
}

} // verus!
