//! Points in time and spans of time, as whole nanoseconds.

use vstd::prelude::*;

verus! {

pub const NANOS_PER_SECOND: u32 = 1_000_000_000;

/// A point on the host's monotonic clock, counted from that clock's origin.
#[derive(Clone, Copy, Debug, PartialEq, Eq, Structural)]
pub struct Instant {
    pub nanos: u128,
}

impl View for Instant {
    type V = nat;

    open spec fn view(&self) -> nat {
        self.nanos as nat
    }
}

/// Whether the clock can express the point that lies `span` after `now`.
pub open spec fn reaches(now: nat, span: nat) -> bool {
    now + span <= u128::MAX
}

impl Instant {
    /// The point that lies `span` later.
    pub fn after(self, span: Duration) -> (later: Instant)
        requires
            reaches(self@, span@),
        ensures
            later@ == self@ + span@,
    {
        Instant { nanos: self.nanos + span.as_nanos() }
    }
}

/// A span of time: whole seconds and the nanoseconds of a started second.
#[derive(Clone, Copy, Debug, PartialEq, Eq)]
pub struct Duration {
    secs: u64,
    nanos: u32,
}

impl Duration {
    #[verifier::type_invariant]
    spec fn started_second(self) -> bool {
        self.nanos < NANOS_PER_SECOND
    }

    pub closed spec fn view(&self) -> nat {
        (self.secs * 1_000_000_000 + self.nanos) as nat
    }

    pub fn from_secs(secs: u64) -> (span: Duration)
        ensures
            span@ == secs * 1_000_000_000,
    {
        Duration { secs, nanos: 0 }
    }

    pub fn from_millis(millis: u64) -> (span: Duration)
        ensures
            span@ == millis * 1_000_000,
    {
        let nanos: u32 = (millis % 1_000) as u32 * 1_000_000;
        Duration { secs: millis / 1_000, nanos }
    }

    pub fn from_nanos(nanos: u64) -> (span: Duration)
        ensures
            span@ == nanos,
    {
        let rest: u32 = (nanos % 1_000_000_000) as u32;
        Duration { secs: nanos / 1_000_000_000, nanos: rest }
    }

    pub fn as_nanos(&self) -> (nanos: u128)
        ensures
            nanos == self@,
    {
        proof {
            use_type_invariant(self);
        }
        self.secs as u128 * 1_000_000_000 + self.nanos as u128
    }

    pub fn as_secs(&self) -> (secs: u64)
        ensures
            secs == self@ / 1_000_000_000,
    {
        proof {
            use_type_invariant(self);
        }
        self.secs
    }

    pub fn subsec_nanos(&self) -> (nanos: u32)
        ensures
            nanos == self@ % 1_000_000_000,
            nanos < NANOS_PER_SECOND,
    {
        proof {
            use_type_invariant(self);
        }
        self.nanos
    }

    pub fn is_zero(&self) -> (zero: bool)
        ensures
            zero == (self@ == 0),
    {
        self.secs == 0 && self.nanos == 0
    }
}

} // verus!
