//! Wall-clock time for the search's time budget.
use vstd::prelude::*;
use std::time::Instant;

verus! {

#[verifier::external_type_specification]
#[verifier::external_body]
pub struct ExInstant(std::time::Instant);

/// Relies on `std::time::Instant::now`: the current instant.
#[verifier::external_body]
pub(crate) fn now() -> Instant {
    Instant::now()
}

/// Relies on `Instant::elapsed`: whole milliseconds since `start`.
#[verifier::external_body]
pub(crate) fn elapsed_millis(start: &Instant) -> u128 {
    start.elapsed().as_millis()
}

} // verus!
