//! Blocking job offloader: a bounded worker pool that accepts units of
//! blocking work and hands each result back to exactly one waiter.
//!
//! The pool is modelled by its scheduling state: submission hands out a
//! fresh ticket when there is capacity and fails fast with
//! `DispatchFailed` when the pool is saturated or shut down; delivery
//! resolves a pending ticket and retires it, so a result can never be
//! delivered twice. The worker threads themselves live outside the
//! verified library and report back through these transitions.

use vstd::prelude::*;

verus! {

/// The job could not be scheduled: the pool is saturated or shut down.
#[derive(Clone, Copy, Debug, PartialEq, Eq, Structural)]
pub enum OffloadError {
    DispatchFailed,
}

/// Scheduling state of the bounded worker pool.
pub struct WorkerPool {
    /// Fixed bound on concurrently running jobs, configured at startup.
    pub capacity: usize,
    /// Once shut down, the pool accepts no further work.
    pub shutdown: bool,
    /// Jobs submitted and not yet delivered.
    pub active: usize,
    /// The ticket the next accepted submission will receive.
    pub next_ticket: u64,
    /// Tickets of submitted jobs whose results are still owed.
    pub pending: Vec<u64>,
}

impl WorkerPool {
    /// Structural invariant: `active` counts the pending tickets, the
    /// bound is respected, and tickets are unique and below the
    /// counter.
    pub open spec fn wf(self) -> bool {
        &&& self.active == self.pending@.len()
        &&& self.active <= self.capacity
        &&& forall|i: int|
            0 <= i < self.pending@.len() ==> self.pending@[i] < self.next_ticket
        &&& forall|i: int, j: int|
            0 <= i < j < self.pending@.len() ==> self.pending@[i] != self.pending@[j]
    }

    /// A submission is accepted exactly when the pool is live, under
    /// its bound, and can still mint a ticket.
    pub open spec fn can_accept(self) -> bool {
        !self.shutdown && self.active < self.capacity && self.next_ticket < u64::MAX
    }

    /// Creates an empty pool with the given bound.
    pub fn new(capacity: usize) -> (p: WorkerPool)
        ensures
            p.wf(),
            p.capacity == capacity,
            !p.shutdown,
            p.active == 0,
            p.next_ticket == 0,
            p.pending@ == Seq::<u64>::empty(),
    {
        let p = WorkerPool { capacity, shutdown: false, active: 0, next_ticket: 0, pending: Vec::new() };
        assert(p.pending@ =~= Seq::<u64>::empty());
        p
    }

    /// Submits a job. Succeeds if and only if the pool has capacity,
    /// returning a fresh ticket; otherwise the pool is left unchanged
    /// and the submission fails fast.
    pub fn submit(&mut self) -> (r: Result<u64, OffloadError>)
        requires
            old(self).wf(),
        ensures
            final(self).wf(),
            r is Ok <==> old(self).can_accept(),
            r matches Ok(t) ==> submit_step(*old(self), *final(self), t),
            r is Err ==> *final(self) == *old(self) && r == Err::<u64, OffloadError>(
                OffloadError::DispatchFailed,
            ),
    {
        if self.shutdown || self.active >= self.capacity || self.next_ticket == u64::MAX {
            return Err(OffloadError::DispatchFailed);
        }
        let t = self.next_ticket;
        self.next_ticket = self.next_ticket + 1;
        self.active = self.active + 1;
        self.pending.push(t);
        proof {
            lemma_submit_registers(*old(self), *self, t);
        }
        Ok(t)
    }

    /// Delivers the result owed for `t`: reports whether `t` was still
    /// pending, and if so retires it. A retired ticket is gone, so the
    /// same result cannot be handed out a second time.
    pub fn deliver(&mut self, t: u64) -> (r: bool)
        requires
            old(self).wf(),
        ensures
            final(self).wf(),
            r <==> old(self).pending@.contains(t),
            r ==> deliver_step(*old(self), *final(self), t),
            !r ==> *final(self) == *old(self),
    {
        let n = self.pending.len();
        let mut i: usize = 0;
        while i < n
            invariant
                old(self).wf(),
                *self == *old(self),
                n == self.pending@.len(),
                i <= n,
                forall|k: int| 0 <= k < i ==> self.pending@[k] != t,
            decreases n - i,
        {
            if self.pending[i] == t {
                self.pending.remove(i);
                self.active = self.active - 1;
                proof {
                    lemma_deliver_retires(*old(self), *self, i as int, t);
                }
                return true;
            }
            i += 1;
        }
        assert(!old(self).pending@.contains(t)) by {
            if old(self).pending@.contains(t) {
                let k = choose|k: int|
                    0 <= k < old(self).pending@.len() && old(self).pending@[k] == t;
                assert(old(self).pending@[k] != t);
            }
        }
        false
    }
}

/// How a successful submission changes the pool: the fresh ticket is
/// the counter's value, it joins the pending ones, and the bound and
/// liveness are untouched.
pub open spec fn submit_step(p0: WorkerPool, p1: WorkerPool, t: u64) -> bool {
    &&& t == p0.next_ticket
    &&& p1.pending@ == p0.pending@.push(t)
    &&& p1.active == p0.active + 1
    &&& p1.next_ticket == p0.next_ticket + 1
    &&& p1.capacity == p0.capacity
    &&& p1.shutdown == p0.shutdown
}

/// How a delivery changes the pool: the ticket stops being pending,
/// every other ticket's status is untouched, and one slot frees up.
pub open spec fn deliver_step(p0: WorkerPool, p1: WorkerPool, t: u64) -> bool {
    &&& p0.pending@.contains(t)
    &&& !p1.pending@.contains(t)
    &&& forall|u: u64| u != t ==> (p1.pending@.contains(u) <==> p0.pending@.contains(u))
    &&& p1.pending@.len() == p0.pending@.len() - 1
    &&& p1.active == p0.active - 1
    &&& p1.next_ticket == p0.next_ticket
    &&& p1.capacity == p0.capacity
    &&& p1.shutdown == p0.shutdown
}

/// An accepted submission registers exactly one new waiter: its ticket
/// was not pending before, is pending after, and the pool invariant is
/// preserved.
pub proof fn lemma_submit_registers(p0: WorkerPool, p1: WorkerPool, t: u64)
    requires
        p0.wf(),
        p0.can_accept(),
        submit_step(p0, p1, t),
    ensures
        p1.wf(),
        !p0.pending@.contains(t),
        p1.pending@.contains(t),
{
    assert(!p0.pending@.contains(t)) by {
        if p0.pending@.contains(t) {
            let k = choose|k: int| 0 <= k < p0.pending@.len() && p0.pending@[k] == t;
            assert(p0.pending@[k] < p0.next_ticket);
        }
    }
    assert(p1.pending@[p0.pending@.len() as int] == t);
}

/// Removing the pending ticket at index `i` retires exactly that
/// ticket and preserves the pool invariant.
pub proof fn lemma_deliver_retires(p0: WorkerPool, p1: WorkerPool, i: int, t: u64)
    requires
        p0.wf(),
        0 <= i < p0.pending@.len(),
        p0.pending@[i] == t,
        p1.pending@ == p0.pending@.remove(i),
        p1.active == p0.active - 1,
        p1.next_ticket == p0.next_ticket,
        p1.capacity == p0.capacity,
        p1.shutdown == p0.shutdown,
    ensures
        p1.wf(),
        deliver_step(p0, p1, t),
{
    let s0 = p0.pending@;
    let s1 = p1.pending@;
    assert(forall|k: int| 0 <= k < i ==> s1[k] == s0[k]);
    assert(forall|k: int| i <= k < s1.len() ==> s1[k] == s0[k + 1]);
    assert(!s1.contains(t)) by {
        if s1.contains(t) {
            let k = choose|k: int| 0 <= k < s1.len() && s1[k] == t;
            if k < i {
                assert(s0[k] == t && s0[i] == t);
            } else {
                assert(s0[k + 1] == t && s0[i] == t);
            }
        }
    }
    assert forall|u: u64| u != t && s0.contains(u) implies s1.contains(u) by {
        let k = choose|k: int| 0 <= k < s0.len() && s0[k] == u;
        if k < i {
            assert(s1[k] == u);
        } else {
            assert(k > i);
            assert(s1[k - 1] == u);
        }
    }
    assert forall|u: u64| u != t && s1.contains(u) implies s0.contains(u) by {
        let k = choose|k: int| 0 <= k < s1.len() && s1[k] == u;
        if k < i {
            assert(s0[k] == u);
        } else {
            assert(s0[k + 1] == u);
        }
    }
}

/// A result is delivered at most once: after a delivery of ticket `t`,
/// no further transition can deliver `t` again.
pub proof fn lemma_deliver_exactly_once(p0: WorkerPool, p1: WorkerPool, p2: WorkerPool, t: u64)
    requires
        deliver_step(p0, p1, t),
    ensures
        !deliver_step(p1, p2, t),
{
}

/// Tickets never collide: a pool's fresh ticket is distinct from every
/// pending one, and two consecutive submissions mint distinct tickets,
/// so concurrent requests cannot swap results.
pub proof fn lemma_tickets_distinct(
    p0: WorkerPool,
    p1: WorkerPool,
    p2: WorkerPool,
    t1: u64,
    t2: u64,
)
    requires
        p0.wf(),
        submit_step(p0, p1, t1),
        submit_step(p1, p2, t2),
    ensures
        t1 != t2,
        !p0.pending@.contains(p0.next_ticket),
{
    assert(!p0.pending@.contains(p0.next_ticket)) by {
        if p0.pending@.contains(p0.next_ticket) {
            let k = choose|k: int|
                0 <= k < p0.pending@.len() && p0.pending@[k] == p0.next_ticket;
            assert(p0.pending@[k] < p0.next_ticket);
        }
    }
}

} // verus!
