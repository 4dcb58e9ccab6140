//! The monotonic clock, which the library reads through std.
use std::time::Instant;
use vstd::prelude::*;

verus! {

/// `std::time::Instant`, carried through the library as an opaque value.
#[verifier::external_type_specification]
#[verifier::external_body]
pub struct ExInstant(std::time::Instant);

/// `Instant::now` (std): the current reading of the monotonic clock. Nothing
/// is stated of it.
#[verifier::external_body]
pub(crate) fn now() -> (r: Instant) {
    Instant::now()
}

/// What `Instant::duration_since` (std) gives, in whole nanoseconds, for
/// two clock readings: the time from `earlier` to `later`, zero when
/// `earlier` is the later one. It depends on the two readings alone.
pub uninterp spec fn nanos_from(later: Instant, earlier: Instant) -> u128;

/// `Instant::duration_since` (std), its result taken in whole nanoseconds
/// (`Duration::as_nanos`), named `nanos_from` here; from an instant to
/// itself no time passes.
#[verifier::external_body]
fn elapsed_nanos(later: &Instant, earlier: &Instant) -> (r: u128)
    ensures
        r == nanos_from(*later, *earlier),
        *later == *earlier ==> r == 0,
{
    later.duration_since(*earlier).as_nanos()
}

/// The nanoseconds from `earlier` to `later` (zero when `earlier` is later);
/// none from an instant to itself.
pub(crate) fn nanos_between(later: &Instant, earlier: &Instant) -> (r: u128)
    ensures
        r == nanos_from(*later, *earlier),
        *later == *earlier ==> r == 0,
{
    elapsed_nanos(later, earlier)
}

} // verus!
