//! Readings of the clock. What they are rests on when the program runs, so nothing is stated of
//! them.
use vstd::prelude::*;

verus! {

/// A point in time of the standard library, of which nothing is known.
#[verifier::external_type_specification]
#[verifier::external_body]
pub struct ExInstant(std::time::Instant);

/// The standard library's `Instant::now`: reads the monotonic clock. Trusted: nothing; the reading
/// is left free, as it rests on time.
pub assume_specification[ std::time::Instant::now ]() -> (instant: std::time::Instant)
;

/// The standard library's `Instant::duration_since`: the time that has passed since an earlier
/// reading. Trusted: nothing; the span is left free, as it rests on time.
pub assume_specification[ std::time::Instant::duration_since ](
    instant: &std::time::Instant,
    earlier: std::time::Instant,
) -> (span: std::time::Duration)
;

/// The standard library's `Duration::as_nanos`: a span in whole nanoseconds. Trusted: nothing; a
/// span has no model here, so the number is left free.
pub assume_specification[ std::time::Duration::as_nanos ](span: &std::time::Duration) -> (nanos: u128)
;

/// The nanoseconds from one reading of the clock to another.
pub(crate) fn nanos_between(earlier: std::time::Instant, later: std::time::Instant) -> (nanos: u128)
{
    later.duration_since(earlier).as_nanos()
}

} // verus!
