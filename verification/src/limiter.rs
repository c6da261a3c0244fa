//! The concurrency limiter: a counting resource with a fixed capacity.
//!
//! Every worker acquires one unit before any outside work and releases it on
//! every exit path. The invariant of the batch — never more workers past
//! their acquire point than the capacity admits — is the invariant of this
//! counter.

use vstd::prelude::*;

verus! {

/// A counting resource with a fixed capacity. `in_flight` counts the workers
/// past their acquire point and before their release point.
pub struct ConcurrencyLimiter {
    capacity: usize,
    in_flight: usize,
}

impl ConcurrencyLimiter {
    /// The fixed ceiling the limiter was created with.
    pub closed spec fn capacity(self) -> nat {
        self.capacity as nat
    }

    /// How many units are held right now.
    pub closed spec fn in_flight(self) -> nat {
        self.in_flight as nat
    }

    /// The limiter's invariant: the ceiling is positive and is never
    /// exceeded.
    pub open spec fn wf(self) -> bool {
        1 <= self.capacity() && self.in_flight() <= self.capacity()
    }

    /// The fixed ceiling, as a number a runtime can hand to its own
    /// counting primitive.
    pub fn capacity_units(&self) -> (n: usize)
        ensures
            n == self.capacity(),
    {
        self.capacity
    }

    /// How many units are held right now, as a number.
    pub fn in_flight_units(&self) -> (n: usize)
        ensures
            n == self.in_flight(),
    {
        self.in_flight
    }

    /// A fresh limiter with the given positive capacity and nothing in
    /// flight.
    pub fn new(capacity: usize) -> (s: Self)
        requires
            capacity >= 1,
        ensures
            s.wf(),
            s.capacity() == capacity,
            s.in_flight() == 0,
    {
        ConcurrencyLimiter { capacity, in_flight: 0 }
    }

    /// Take one unit if one is free. Succeeds exactly when the ceiling has
    /// room, and never pushes the count past the ceiling.
    pub fn try_acquire(&mut self) -> (ok: bool)
        requires
            old(self).wf(),
        ensures
            final(self).wf(),
            final(self).capacity() == old(self).capacity(),
            ok == (old(self).in_flight() < old(self).capacity()),
            ok ==> final(self).in_flight() == old(self).in_flight() + 1,
            !ok ==> final(self).in_flight() == old(self).in_flight(),
    {
        if self.in_flight < self.capacity {
            self.in_flight = self.in_flight + 1;
            true
        } else {
            false
        }
    }

    /// Give one held unit back.
    pub fn release(&mut self)
        requires
            old(self).wf(),
            old(self).in_flight() >= 1,
        ensures
            final(self).wf(),
            final(self).capacity() == old(self).capacity(),
            final(self).in_flight() == old(self).in_flight() - 1,
    {
        self.in_flight = self.in_flight - 1;
    }
}

/// Relies on num_cpus::get: the number of logical CPUs available to the
/// process, documented to always be at least 1.
#[verifier::external_body]
fn host_parallelism() -> (n: usize)
    ensures
        n >= 1,
{
    num_cpus::get()
}

/// A limiter with the default capacity: one unit per processing unit the host
/// makes available.
pub fn default_limiter() -> (s: ConcurrencyLimiter)
    ensures
        s.wf(),
        s.in_flight() == 0,
{
    ConcurrencyLimiter::new(host_parallelism())
}

/// One step of a batch's history, as the limiter sees it.
pub enum LimiterEvent {
    Acquire,
    Release,
}

/// The number of units held after replaying a history of acquire and release
/// attempts against a limiter of capacity `cap`: an acquire takes a unit only
/// when one is free, a release gives one back only when one is held.
pub open spec fn held_after(events: Seq<LimiterEvent>, cap: nat) -> nat
    decreases events.len(),
{
    if events.len() == 0 {
        0
    } else {
        let before = held_after(events.drop_last(), cap);
        match events.last() {
            LimiterEvent::Acquire => if before < cap {
                before + 1
            } else {
                before
            },
            LimiterEvent::Release => if before >= 1 {
                (before - 1) as nat
            } else {
                before
            },
        }
    }
}

/// Law: however a batch's acquisitions and releases interleave, the number of
/// workers simultaneously past their acquire point never exceeds the
/// limiter's capacity.
pub proof fn lemma_held_never_exceeds_capacity(events: Seq<LimiterEvent>, cap: nat)
    ensures
        held_after(events, cap) <= cap,
    decreases events.len(),
{
    if events.len() > 0 {
        lemma_held_never_exceeds_capacity(events.drop_last(), cap);
    }
}

} // verus!
