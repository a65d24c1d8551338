//! Admission control for the rank enrichment fan-out: one lookup per
//! participant, never more than the permitted number in flight at once.

use vstd::prelude::*;

verus! {

/// The fixed number of concurrent rank lookups the fan-out admits.
pub const MAX_IN_FLIGHT: usize = 5;

/// Tracks how many lookups have not started yet and how many are in
/// flight. The driver asks `try_start` before launching a lookup and
/// reports back with `finish`; the count in flight never passes the cap.
pub struct RankFanout {
    pending: usize,
    running: usize,
}

impl RankFanout {
    /// How many lookups have not been started yet.
    pub closed spec fn pending(&self) -> nat {
        self.pending as nat
    }

    /// How many lookups are in flight right now.
    pub closed spec fn running(&self) -> nat {
        self.running as nat
    }

    /// The admission invariant.
    pub open spec fn wf(&self) -> bool {
        self.running() <= MAX_IN_FLIGHT
    }

    /// One lookup per participant is owed.
    pub fn new(participants: usize) -> (r: RankFanout)
        ensures
            r.wf(),
            r.pending() == participants,
            r.running() == 0,
    {
        RankFanout { pending: participants, running: 0 }
    }

    /// Admits one lookup exactly when work remains and the cap leaves room.
    pub fn try_start(&mut self) -> (started: bool)
        requires
            old(self).wf(),
        ensures
            final(self).wf(),
            started == (old(self).pending() > 0 && old(self).running() < MAX_IN_FLIGHT),
            started ==> final(self).pending() == old(self).pending() - 1 && final(self).running()
                == old(self).running() + 1,
            !started ==> *final(self) == *old(self),
    {
        if self.pending > 0 && self.running < MAX_IN_FLIGHT {
            self.pending = self.pending - 1;
            self.running = self.running + 1;
            true
        } else {
            false
        }
    }

    /// One lookup has come back.
    pub fn finish(&mut self)
        requires
            old(self).wf(),
            old(self).running() > 0,
        ensures
            final(self).wf(),
            final(self).running() == old(self).running() - 1,
            final(self).pending() == old(self).pending(),
    {
        self.running = self.running - 1;
    }

    /// Whether every lookup has been admitted and come back.
    pub fn is_drained(&self) -> (r: bool)
        ensures
            r == (self.pending() == 0 && self.running() == 0),
    {
        self.pending == 0 && self.running == 0
    }
}

/// The concurrency bound: in every reachable state of the fan-out, at most
/// the permitted number of lookups are in flight. `new` establishes the
/// invariant and `try_start` and `finish` preserve it, so it holds of every
/// state the driver can reach.
pub proof fn lemma_fanout_bound(f: RankFanout)
    requires
        f.wf(),
    ensures
        f.running() <= 5,
{
}

} // verus!
