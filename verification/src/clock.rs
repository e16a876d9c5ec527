//! The monotonic clock that bounds how long completion may take, and the
//! rule that says when time is up.

use vstd::prelude::*;

verus! {

#[verifier::external_type_specification]
#[verifier::external_body]
pub struct ExInstant(std::time::Instant);

/// `std::time::Instant::now`: the current instant. Nothing is claimed of
/// it.
#[verifier::external_body]
pub(crate) fn start_clock() -> (r: std::time::Instant) {
    std::time::Instant::now()
}

/// `Instant::elapsed`: the time passed since `t`. It depends on the time of
/// the call, so nothing is claimed of it.
#[verifier::external_body]
pub(crate) fn elapsed_since(t: &std::time::Instant) -> (r: core::time::Duration) {
    t.elapsed()
}

/// `Duration::as_millis`: the whole milliseconds of a duration. The
/// duration is opaque here, so nothing is claimed of the number.
#[verifier::external_body]
pub(crate) fn whole_millis(d: core::time::Duration) -> (r: u128) {
    d.as_millis()
}

/// The time budget of a path completion, in milliseconds.
pub const COMPLETION_BUDGET_MS: u128 = 100;

/// Whether a path completion that has run for `elapsed_ms` milliseconds
/// must stop: once more than the budget has passed.
pub fn past_budget(elapsed_ms: u128) -> (r: bool)
    ensures
        r == (elapsed_ms > COMPLETION_BUDGET_MS),
{
    elapsed_ms > COMPLETION_BUDGET_MS
}

} // verus!
