//! Wall-clock helpers for the surrounding simulation loop: a tick timer and
//! a sliding one-second frame counter.
//!
//! Instants come from the system clock, so nothing can be promised about
//! their values; the contracts state exactly what holds of the bookkeeping
//! whatever the clock returns.

use vstd::prelude::*;
use std::collections::VecDeque;
use std::time::Duration;
use std::time::Instant;

verus! {

#[verifier::external_type_specification]
#[verifier::external_body]
pub struct ExInstant(Instant);

/// Relies on std::time::Instant::now: an opaque reading of the monotonic
/// clock; nothing is assumed about its value.
#[verifier::external_body]
fn instant_now() -> Instant {
    Instant::now()
}

/// Relies on std::time::Instant's PartialOrd::ge, which orders instants by
/// their position on the monotonic clock; nothing is assumed of the result.
#[verifier::external_body]
fn instant_ge(a: Instant, b: Instant) -> bool {
    a >= b
}

/// Relies on std::time::Instant::checked_add: `None` exactly when the sum
/// cannot be represented, but the representation bound is opaque, so
/// nothing is assumed of the result.
#[verifier::external_body]
fn instant_checked_add(a: Instant, d: Duration) -> Option<Instant> {
    a.checked_add(d)
}

/// Relies on std::time::Instant::duration_since: the elapsed time from
/// `earlier` to `a`, saturating to zero when `earlier` is the later one —
/// so it never panics.
#[verifier::external_body]
fn instant_duration_since(a: Instant, earlier: Instant) -> Duration {
    a.duration_since(earlier)
}

/// Relies on core::time::Duration::from_secs: a duration of exactly the
/// given number of whole seconds.
#[verifier::external_body]
fn duration_from_secs(secs: u64) -> Duration {
    Duration::from_secs(secs)
}

/// Measures the elapsed wall-clock time since the last tick.
#[derive(Debug, Clone, Copy)]
pub struct Timer {
    pub last_tick: Instant,
}

impl Timer {
    /// A timer whose last tick is the moment of construction.
    pub fn new() -> Timer {
        Timer { last_tick: instant_now() }
    }

    /// Restart the measurement from the current moment.
    pub fn tick(&mut self) {
        self.last_tick = instant_now();
    }

    /// The elapsed time since the last tick (zero if the clock has not
    /// advanced).
    pub fn delta(&self) -> Duration {
        instant_duration_since(instant_now(), self.last_tick)
    }
}

/// Counts the frames recorded during the last second.
#[derive(Debug, Clone)]
pub struct FpsCounter {
    frames: VecDeque<Instant>,
}

impl FpsCounter {
    /// The recorded frame instants, oldest first.
    pub closed spec fn times(&self) -> Seq<Instant> {
        self.frames@
    }

    /// An empty counter.
    pub fn new() -> (c: FpsCounter)
        ensures
            c.times().len() == 0,
    {
        FpsCounter { frames: VecDeque::new() }
    }

    /// Record a frame at the current moment; earlier records are kept.
    pub fn add_frame(&mut self)
        ensures
            final(self).times().len() == old(self).times().len() + 1,
            final(self).times().subrange(0, old(self).times().len() as int) == old(self).times(),
    {
        let now = instant_now();
        self.frames.push_back(now);
        proof {
            assert(self.frames@.subrange(0, old(self).frames@.len() as int) =~= old(self).frames@);
        }
    }

    /// Drop the records older than one second and return how many frames
    /// remain: the kept records are exactly a suffix of the old ones, and
    /// the result is their count.
    pub fn fps(&mut self) -> (n: usize)
        ensures
            exists|c: int| 0 <= c <= old(self).times().len()
                && final(self).times() == old(self).times().skip(c),
            n == final(self).times().len(),
    {
        let now = instant_now();
        let one = duration_from_secs(1);
        let ghost orig = self.frames@;
        let ghost mut dropped: int = 0;
        loop
            invariant
                0 <= dropped <= orig.len(),
                self.frames@ == orig.skip(dropped),
            decreases self.frames@.len(),
        {
            if self.frames.len() == 0 {
                break;
            }
            let first = self.frames[0];
            let recent = match instant_checked_add(first, one) {
                None => true,
                Some(limit) => instant_ge(limit, now),
            };
            if recent {
                break;
            }
            self.frames.pop_front();
            proof {
                dropped = dropped + 1;
                assert(orig.skip(dropped) =~= self.frames@);
            }
        }
        proof {
            assert(self.frames@ == old(self).times().skip(dropped));
            assert(exists|c: int| 0 <= c <= old(self).times().len()
                && self.frames@ == old(self).times().skip(c));
        }
        self.frames.len()
    }
}

} // verus!
