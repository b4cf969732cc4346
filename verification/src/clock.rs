//! Elapsed time as whole nanoseconds, and the monotonic clock that measures it.

use std::time::Duration;
use std::time::Instant;
use vstd::prelude::*;

verus! {

/// The number of nanoseconds in a second.
pub const NANOS_PER_SEC: u32 = 1_000_000_000;

/// A span of time: whole seconds and the nanoseconds of the second begun.
#[derive(Clone, Copy, Debug)]
pub struct Elapsed {
    secs: u64,
    subsec_nanos: u32,
}

impl Elapsed {
    #[verifier::type_invariant]
    spec fn well_formed(&self) -> bool {
        self.subsec_nanos < NANOS_PER_SEC
    }

    /// The span in nanoseconds.
    pub closed spec fn view(&self) -> nat {
        (self.secs * NANOS_PER_SEC + self.subsec_nanos) as nat
    }

    /// The span of `secs` seconds and `subsec_nanos` nanoseconds, where the
    /// nanoseconds are less than a second.
    pub fn new(secs: u64, subsec_nanos: u32) -> (r: Option<Elapsed>)
        ensures
            r is Some <==> subsec_nanos < NANOS_PER_SEC,
            r matches Some(e) ==> e@ == secs * NANOS_PER_SEC + subsec_nanos,
    {
        if subsec_nanos < NANOS_PER_SEC {
            Some(Elapsed { secs, subsec_nanos })
        } else {
            None
        }
    }

    /// The span of `nanos` nanoseconds.
    pub fn from_nanos(nanos: u64) -> (e: Elapsed)
        ensures
            e@ == nanos,
    {
        let secs: u64 = nanos / 1_000_000_000;
        let rest: u64 = nanos % 1_000_000_000;
        Elapsed { secs, subsec_nanos: rest as u32 }
    }

    /// The span in nanoseconds.
    pub fn as_nanos(&self) -> (n: u128)
        ensures
            n == self@,
            n < 0x1_0000_0000_0000_0000 * NANOS_PER_SEC,
    {
        proof {
            use_type_invariant(self);
        }
        let secs: u128 = self.secs as u128;
        let sub: u128 = self.subsec_nanos as u128;
        assert(secs * 1_000_000_000 <= 0xffff_ffff_ffff_ffff * 1_000_000_000) by (nonlinear_arith)
            requires
                secs <= 0xffff_ffff_ffff_ffff,
        ;
        secs * 1_000_000_000 + sub
    }
}

/// `std::time::Instant`: a reading of the monotonic clock. Nothing inside it
/// is seen here.
#[verifier::external_type_specification]
#[verifier::external_body]
pub struct ExInstant(Instant);

/// `Instant::now`: a reading of the monotonic clock. Nothing is known of it.
#[verifier::external_body]
fn instant_now() -> Instant {
    Instant::now()
}

/// `Instant::elapsed`: the time that has passed since the reading was taken.
/// Nothing is known of it.
#[verifier::external_body]
fn instant_elapsed(started: &Instant) -> Duration {
    started.elapsed()
}

/// `Duration::as_secs`: the whole seconds of a duration.
#[verifier::external_body]
fn duration_secs(d: &Duration) -> u64 {
    d.as_secs()
}

/// `Duration::subsec_nanos`: the part of a duration beyond its whole seconds,
/// in nanoseconds, which is less than a second.
#[verifier::external_body]
fn duration_subsec_nanos(d: &Duration) -> (n: u32)
    ensures
        n < NANOS_PER_SEC,
{
    d.subsec_nanos()
}

/// A running stopwatch on the monotonic clock.
pub struct Stopwatch {
    started: Instant,
}

impl Stopwatch {
    /// Starts a stopwatch now.
    pub fn start() -> Stopwatch {
        Stopwatch { started: instant_now() }
    }

    /// The time since the stopwatch was started.
    pub fn elapsed(&self) -> Elapsed {
        let d = instant_elapsed(&self.started);
        let secs: u64 = duration_secs(&d);
        let subsec_nanos: u32 = duration_subsec_nanos(&d);
        Elapsed { secs, subsec_nanos }
    }
}

} // verus!
