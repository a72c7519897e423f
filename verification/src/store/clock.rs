//! The clock of a store: nanoseconds since the store was made.
use std::time::Instant;
use vstd::prelude::*;

verus! {

/// `std::time::Instant`, opaque here.
#[verifier::external_type_specification]
#[verifier::external_body]
pub struct ExInstant(Instant);

/// Calls `Instant::now`. Nothing is claimed of the time it gives.
#[verifier::external_body]
pub(crate) fn clock_start() -> Instant {
    Instant::now()
}

/// Calls `Instant::elapsed` and counts what it gives in nanoseconds. Nothing is
/// claimed of how much time has passed.
#[verifier::external_body]
pub(crate) fn nanos_since(start: &Instant) -> u128 {
    start.elapsed().as_nanos()
}

/// Calls a clock.
fn read<F: Fn(&Instant) -> u128>(clock: F, start: &Instant) -> (r: u128)
    requires
        call_requires(clock, (start,)),
    ensures
        call_ensures(clock, (start,), r),
{
    clock(start)
}

/// Can the clock say that `now` nanoseconds have passed since `start`?
pub closed spec fn is_reading(start: Instant, now: u128) -> bool {
    call_ensures(nanos_since, (&start,), now)
}

/// A reading is what the clock gave, and nothing else.
pub(crate) proof fn law_readings_come_from_the_clock(start: Instant, now: u128)
    ensures
        is_reading(start, now) <==> call_ensures(nanos_since, (&start,), now),
{
}

/// What the clock says.
pub(crate) fn read_clock(start: &Instant) -> (r: u128)
    ensures
        is_reading(*start, r),
{
    read(nanos_since, start)
}

} // verus!
