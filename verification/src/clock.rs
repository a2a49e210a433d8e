//! The clock by which values expire: the time since the clock was made,
//! in nanoseconds.

use tokio::time::Instant;
use vstd::prelude::*;

verus! {

/// An instant of tokio's clock. The library carries it and looks at
/// nothing inside it.
#[verifier::external_type_specification]
#[verifier::external_body]
pub struct ExInstant(tokio::time::Instant);

/// The instant of now, from `tokio::time::Instant::now`. Nothing is
/// claimed of it: it is what the clock says.
#[verifier::external_body]
fn read_instant() -> (instant: Instant) {
    Instant::now()
}

/// The time from `origin` to now, from `tokio::time::Instant::elapsed`:
/// its whole seconds, and the nanoseconds beyond them. The call gives zero
/// for an origin that lies in the future and never fails. Nothing is
/// claimed of the two numbers: they are what the clock says.
#[verifier::external_body]
fn read_elapsed(origin: &Instant) -> (elapsed: (u64, u32)) {
    let elapsed = origin.elapsed();
    (elapsed.as_secs(), elapsed.subsec_nanos())
}

/// The number of nanoseconds in `seconds` seconds and `nanos` nanoseconds,
/// as far as 64 bits hold it.
pub open spec fn nanoseconds_of(seconds: u64, nanos: u32) -> nat {
    let all = seconds as nat * 1_000_000_000 + nanos as nat;
    if all <= u64::MAX {
        all
    } else {
        u64::MAX as nat
    }
}

/// Counts `seconds` seconds and `nanos` nanoseconds in nanoseconds. A time
/// that 64 bits cannot hold, some 584 years, counts as the longest that
/// they can.
pub fn nanoseconds(seconds: u64, nanos: u32) -> (total: u64)
    ensures
        total == nanoseconds_of(seconds, nanos),
{
    let all: u128 = seconds as u128 * 1_000_000_000u128 + nanos as u128;
    if all <= u64::MAX as u128 {
        all as u64
    } else {
        u64::MAX
    }
}

/// A clock that tells the time since it was made.
pub struct Clock {
    origin: Instant,
}

impl Clock {
    /// A clock that starts now.
    pub fn new() -> (clock: Self) {
        Clock { origin: read_instant() }
    }

    /// The time since the clock was made, in nanoseconds. Nothing is known
    /// of it beforehand: every operation of the store is stated for every
    /// time.
    pub fn now(&self) -> (now: u64) {
        let (seconds, nanos) = read_elapsed(&self.origin);
        nanoseconds(seconds, nanos)
    }
}

} // verus!
