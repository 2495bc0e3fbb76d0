//! The clock that tells which statement was used last.
use crate::model;
use std::time::Instant;
use vstd::prelude::*;

verus! {

/// The instants of `std`'s monotonic clock.
#[verifier::external_type_specification]
#[verifier::external_body]
pub struct ExInstant(std::time::Instant);

/// Calls `Instant::now`. Nothing is claimed of the instant: it is whatever the
/// machine's clock shows.
#[verifier::external_body]
fn instant_now() -> Instant {
    Instant::now()
}

/// Calls `Instant::elapsed` and gives the time since `origin` in nanoseconds.
/// Nothing is claimed of the number: it is whatever the machine's clock shows.
#[verifier::external_body]
fn nanos_since(origin: &Instant) -> u128 {
    origin.elapsed().as_nanos()
}

/// A clock that counts nanoseconds from its own start and remembers the newest
/// time that was noted on it.
#[derive(Debug)]
pub struct Clock {
    origin: Instant,
    latest: u128,
}

impl View for Clock {
    type V = u128;

    /// The newest time that was noted.
    closed spec fn view(&self) -> u128 {
        self.latest
    }
}

impl Clock {
    /// Starts a clock at zero.
    pub fn start() -> (r: Self)
        ensures
            r@ == 0,
    {
        Clock { origin: instant_now(), latest: 0 }
    }

    /// The time of a use that comes now, `elapsed` nanoseconds after the start. It lies after
    /// every time that was noted, so that of two uses the later one bears the later time even
    /// where the machine's clock has not moved on between them.
    pub fn at(&self, elapsed: u128) -> (now: u128)
        ensures
            now == model::tick(self@, model::counted(elapsed)),
            model::is_next_use(self@, now),
    {
        let limit: u128 = u64::MAX as u128;
        let count: u128 = if elapsed < limit {
            elapsed
        } else {
            limit
        };
        if self.latest < count {
            count
        } else if self.latest < u128::MAX {
            self.latest + 1
        } else {
            self.latest
        }
    }

    /// Reads the machine's clock for the time of a use that comes now.
    pub fn read(&self) -> (now: u128)
        ensures
            model::is_next_use(self@, now),
    {
        self.at(nanos_since(&self.origin))
    }

    /// Notes that something happened at `now`.
    pub fn note(&mut self, now: u128)
        ensures
            final(self)@ == model::later(old(self)@, now),
    {
        if self.latest < now {
            self.latest = now;
        }
    }
}

} // verus!
