//! Two-phase configuration hand-off: a proposer writes a fresh value, the
//! service applies it and commits, and the proposer learns the outcome from
//! the acknowledgement edge.
//!
//! The primitive keeps two observable slots, the proposed value and the
//! current one, each with an edge counter.  Waiting on an edge is the
//! caller's concern; the state and the commit rules live here.

use vstd::prelude::*;

verus! {

/// A clone whose result is provably the same value.
pub trait ExactClone: Sized {
    fn exact_clone(&self) -> (r: Self)
        ensures
            r == *self,
    ;
}

/// Mathematical image of a [`ConfigSync`].
pub ghost struct SyncV<T> {
    pub curr: T,
    pub fresh: T,
    pub fresh_version: int,
    pub seen_fresh_version: int,
    pub curr_version: int,
    pub seen_curr_version: int,
}

/// Is an unconsumed acknowledgement pending on the current slot?
pub open spec fn curr_pending<T>(s: SyncV<T>) -> bool {
    s.curr_version > s.seen_curr_version
}

/// Is an unconsumed proposal pending on the fresh slot?
pub open spec fn fresh_pending<T>(s: SyncV<T>) -> bool {
    s.fresh_version > s.seen_fresh_version
}

/// What [`ConfigSync::propose`] does to the state.
pub open spec fn propose_spec<T>(s: SyncV<T>, value: T) -> SyncV<T> {
    SyncV { fresh: value, fresh_version: s.fresh_version + 1, ..s }
}

/// What [`ConfigSync::finish`] does to the state.
pub open spec fn commit_spec<T>(s: SyncV<T>, success: bool) -> SyncV<T> {
    SyncV {
        curr: if success {
            s.fresh
        } else {
            s.curr
        },
        curr_version: s.curr_version + 1,
        ..s
    }
}

/// The coalescing two-slot handshake.
pub struct ConfigSync<T> {
    pub curr: T,
    pub fresh: T,
    pub fresh_version: u64,
    pub seen_fresh_version: u64,
    pub curr_version: u64,
    pub seen_curr_version: u64,
}

impl<T> ConfigSync<T> {
    /// The mathematical image of this state.
    pub open spec fn view(&self) -> SyncV<T> {
        SyncV {
            curr: self.curr,
            fresh: self.fresh,
            fresh_version: self.fresh_version as int,
            seen_fresh_version: self.seen_fresh_version as int,
            curr_version: self.curr_version as int,
            seen_curr_version: self.seen_curr_version as int,
        }
    }

    /// Consumed edges never run ahead of produced ones, and the counters
    /// stay clear of their machine bound.
    pub open spec fn wf(&self) -> bool {
        &&& self.seen_fresh_version <= self.fresh_version
        &&& self.seen_curr_version <= self.curr_version
    }

    /// Borrow the active configuration.
    pub fn curr(&self) -> (r: &T)
        ensures
            r == self.curr,
    {
        &self.curr
    }

    /// Borrow the latest proposed configuration.
    pub fn fresh(&self) -> (r: &T)
        ensures
            r == self.fresh,
    {
        &self.fresh
    }

    /// Write a proposal into the fresh slot, waking the consumer of the
    /// fresh edge.  Overlapping proposals coalesce: only the latest value
    /// stays visible.
    pub fn propose(&mut self, value: T)
        requires
            old(self).wf(),
            old(self).fresh_version < u64::MAX,
        ensures
            final(self).wf(),
            final(self)@ == propose_spec(old(self)@, value),
            fresh_pending(final(self)@),
    {
        self.fresh = value;
        self.fresh_version = self.fresh_version + 1;
    }

    /// Consume the fresh edge: reports whether a proposal arrived since
    /// the last poll, and marks it seen.
    pub fn poll_new(&mut self) -> (r: bool)
        requires
            old(self).wf(),
        ensures
            final(self).wf(),
            r == fresh_pending(old(self)@),
            final(self).curr == old(self).curr,
            final(self).fresh == old(self).fresh,
            final(self).fresh_version == old(self).fresh_version,
            final(self).curr_version == old(self).curr_version,
            final(self).seen_curr_version == old(self).seen_curr_version,
            final(self).seen_fresh_version == old(self).fresh_version,
            !fresh_pending(final(self)@),
    {
        let pending = self.fresh_version > self.seen_fresh_version;
        self.seen_fresh_version = self.fresh_version;
        pending
    }

    /// Consume the acknowledgement edge: reports whether a commit happened
    /// since the last poll, and marks it seen.
    pub fn poll_curr(&mut self) -> (r: bool)
        requires
            old(self).wf(),
        ensures
            final(self).wf(),
            r == curr_pending(old(self)@),
            final(self).curr == old(self).curr,
            final(self).fresh == old(self).fresh,
            final(self).fresh_version == old(self).fresh_version,
            final(self).curr_version == old(self).curr_version,
            final(self).seen_fresh_version == old(self).seen_fresh_version,
            final(self).seen_curr_version == old(self).curr_version,
            !curr_pending(final(self)@),
    {
        let pending = self.curr_version > self.seen_curr_version;
        self.seen_curr_version = self.curr_version;
        pending
    }
}

impl<T: ExactClone> ConfigSync<T> {
    /// Start with the same value in both slots and no pending edges.
    pub fn new(initial: T) -> (r: Self)
        ensures
            r.wf(),
            r.curr == initial,
            r.fresh == initial,
            !fresh_pending(r@),
            !curr_pending(r@),
    {
        let curr = initial.exact_clone();
        ConfigSync {
            curr,
            fresh: initial,
            fresh_version: 0,
            seen_fresh_version: 0,
            curr_version: 0,
            seen_curr_version: 0,
        }
    }

    /// Acknowledge the proposal under work: on success the fresh value
    /// becomes current; on failure the current value stays.  Either way
    /// the acknowledgement edge wakes the waiter exactly once.
    pub fn finish(&mut self, success: bool)
        requires
            old(self).wf(),
            old(self).curr_version < u64::MAX,
        ensures
            final(self).wf(),
            final(self)@ == commit_spec(old(self)@, success),
            curr_pending(final(self)@),
            success ==> final(self).curr == old(self).fresh,
            !success ==> final(self).curr == old(self).curr,
    {
        if success {
            self.curr = self.fresh.exact_clone();
        }
        self.curr_version = self.curr_version + 1;
    }
}

/// Two-phase commit law: from a state with no acknowledgement pending, a
/// proposal followed by its commit leaves exactly one acknowledgement for
/// the waiter; a successful commit makes the proposed value current, a
/// failed one leaves the current value untouched.
pub proof fn lemma_two_phase_commit<T>(s: SyncV<T>, value: T, success: bool)
    requires
        s.seen_curr_version <= s.curr_version,
        !curr_pending(s),
    ensures
        ({
            let s1 = commit_spec(propose_spec(s, value), success);
            &&& curr_pending(s1)
            &&& s1.curr_version == s.curr_version + 1
            &&& (success ==> s1.curr == value)
            &&& (!success ==> s1.curr == s.curr)
        }),
{
}

} // verus!
