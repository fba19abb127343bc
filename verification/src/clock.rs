use vstd::prelude::*;

verus! {

/// `std::time::Instant`, a point on the monotonic clock.
#[verifier::external_type_specification]
#[verifier::external_body]
pub struct ExInstant(std::time::Instant);

/// Reads the monotonic clock (`std::time::Instant::now`).
/// The result depends on when the call is made, so nothing is promised of it.
#[verifier::external_body]
pub(crate) fn now() -> (t: std::time::Instant) {
    std::time::Instant::now()
}

/// Whole seconds elapsed since `since` (`Instant::elapsed` followed by
/// `Duration::as_secs`). The result depends on the clock, so nothing is
/// promised of it beyond its type.
#[verifier::external_body]
pub(crate) fn whole_seconds_since(since: &std::time::Instant) -> (secs: u64) {
    since.elapsed().as_secs()
}

} // verus!
