//! The reactor: a table of wake handles keyed by OS resource identifier,
//! plus the queue of kernel registration commands the caller must carry out.
//!
//! The kernel half of the reactor (creating the readiness multiplexer,
//! adding interests, blocking for events) is operating-system interop
//! and lives outside the verified library.  This component keeps the
//! decisions: which waker is interested in which resource, which
//! interests still have to be handed to the kernel, and which waker
//! fires when a readiness event arrives.

use vstd::prelude::*;

use std::collections::HashMap;

use crate::executor::Executor;
use crate::task::{Computation, Waker};

verus! {

broadcast use vstd::std_specs::hash::group_hash_axioms;

/// A kernel registration command the embedding loop still has to perform:
/// watch `fd` for readability, or for writability when `writable` is set.
#[derive(Clone, Copy, PartialEq, Eq, Structural, Debug)]
pub struct Registration {
    pub fd: u64,
    pub writable: bool,
}

/// Why a registration was refused.
#[derive(Clone, Copy, PartialEq, Eq, Structural, Debug)]
pub enum RegisterError {
    /// An interest for the same resource identifier is still pending;
    /// overwriting it would silently discard the earlier waiter.
    DuplicateInterest,
}

/// Maps each watched OS resource identifier to the single waker
/// interested in it, one-shot: an entry is removed when it fires.
pub struct Reactor {
    wakers: HashMap<u64, Waker>,
    pending: Vec<Registration>,
}

impl Reactor {
    /// The registration table: resource identifier to interested waker.
    pub closed spec fn table(&self) -> Map<u64, Waker> {
        self.wakers@
    }

    /// Kernel add-interest commands recorded by `register` and not yet
    /// collected through `take_pending`, oldest first.
    pub closed spec fn pending_adds(&self) -> Seq<Registration> {
        self.pending@
    }

    /// Constructs a reactor with an empty table and no pending commands.
    pub fn new() -> (r: Self)
        ensures
            r.table() == Map::<u64, Waker>::empty(),
            r.pending_adds() == Seq::<Registration>::empty(),
    {
        Reactor { wakers: HashMap::new(), pending: Vec::new() }
    }

    /// Records that `waker` is interested in resource `fd` (for writing
    /// when `writable` is set, for reading otherwise) and queues the
    /// matching kernel command.  A second registration for an identifier
    /// whose interest has not yet fired is refused rather than silently
    /// discarding the earlier waiter.
    ///
    /// The identifier is an opaque handle: the caller guarantees that
    /// the underlying OS resource stays open for the lifetime of the
    /// registration.
    pub fn register(&mut self, fd: u64, writable: bool, waker: Waker) -> (res: Result<
        (),
        RegisterError,
    >)
        ensures
            match res {
                Ok(()) => {
                    &&& !old(self).table().contains_key(fd)
                    &&& final(self).table() == old(self).table().insert(fd, waker)
                    &&& final(self).pending_adds() == old(self).pending_adds().push(
                        (Registration { fd, writable }),
                    )
                },
                Err(e) => {
                    &&& e is DuplicateInterest
                    &&& old(self).table().contains_key(fd)
                    &&& *final(self) == *old(self)
                },
            },
    {
        if self.wakers.contains_key(&fd) {
            Err(RegisterError::DuplicateInterest)
        } else {
            self.wakers.insert(fd, waker);
            self.pending.push(Registration { fd, writable });
            Ok(())
        }
    }

    /// Hands out the kernel commands recorded so far, oldest first, and
    /// clears the pending queue.  The embedding loop performs each command
    /// against the OS multiplexer before blocking for readiness.
    pub fn take_pending(&mut self) -> (cmds: Vec<Registration>)
        ensures
            cmds@ == old(self).pending_adds(),
            final(self).pending_adds() == Seq::<Registration>::empty(),
            final(self).table() == old(self).table(),
    {
        let mut cmds: Vec<Registration> = Vec::new();
        std::mem::swap(&mut cmds, &mut self.pending);
        cmds
    }

    /// Whether an interest for resource `fd` is currently recorded.
    pub fn is_registered(&self, fd: u64) -> (b: bool)
        ensures
            b == self.table().contains_key(fd),
    {
        self.wakers.contains_key(&fd)
    }

    /// How many interests are currently recorded.
    pub fn interest_count(&self) -> (n: usize)
        ensures
            n == self.table().len(),
    {
        self.wakers.len()
    }

    /// Delivers a batch of readiness events, in the order the kernel
    /// reported them: each event whose resource still has a recorded
    /// interest removes that entry and invokes its waker exactly once;
    /// events for resources absent from the table wake nothing.  A fired
    /// resource must be registered again before it can fire again.
    #[verifier::loop_isolation(false)]
    pub fn fire<C: Computation>(&mut self, ready: &Vec<u64>, exec: &mut Executor<C>)
        ensures
            final(self).table() == remaining_table(old(self).table(), ready@),
            final(self).pending_adds() == old(self).pending_adds(),
            final(exec).queue_ids() == old(exec).queue_ids() + woken_ids(
                old(self).table(),
                old(exec).task_map().dom(),
                ready@,
            ),
            final(exec).task_map() == old(exec).task_map(),
            final(exec).completed() == old(exec).completed(),
            final(exec).fresh_id() == old(exec).fresh_id(),
    {
        let ghost dom0 = old(exec).task_map().dom();
        let n = ready.len();
        proof {
            assert(ready@.subrange(0, n as int) =~= ready@);
        }
        let mut i: usize = 0;
        while i < n
            invariant
                0 <= i <= n,
                n == ready@.len(),
                self.pending@ == old(self).pending@,
                exec.task_map() == old(exec).task_map(),
                exec.completed() == old(exec).completed(),
                exec.fresh_id() == old(exec).fresh_id(),
                remaining_table(old(self).table(), ready@) == remaining_table(
                    self.wakers@,
                    ready@.subrange(i as int, n as int),
                ),
                old(exec).queue_ids() + woken_ids(old(self).table(), dom0, ready@)
                    == exec.queue_ids() + woken_ids(
                    self.wakers@,
                    dom0,
                    ready@.subrange(i as int, n as int),
                ),
            decreases n - i,
        {
            let fd = ready[i];
            let ghost rem = ready@.subrange(i as int, n as int);
            let ghost rest = ready@.subrange(i as int + 1, n as int);
            let ghost wb = self.wakers@;
            let ghost qb = exec.queue_ids();
            proof {
                assert(rem[0] == fd);
                assert(rem.len() == n - i);
                assert(rem.subrange(1, rem.len() as int) =~= rest);
            }
            match self.wakers.remove(&fd) {
                Some(w) => {
                    proof {
                        assert(wb.contains_key(fd) && w == wb[fd]);
                        assert(self.wakers@ == wb.remove(fd));
                    }
                    exec.wake(&w);
                    proof {
                        let head: Seq<u64> = if dom0.contains(w.id()) {
                            seq![w.id()]
                        } else {
                            Seq::<u64>::empty()
                        };
                        let tail = woken_ids(wb.remove(fd), dom0, rest);
                        assert(woken_ids(wb, dom0, rem) == head + tail);
                        assert(remaining_table(wb, rem) == remaining_table(wb.remove(fd), rest));
                        if dom0.contains(w.id()) {
                            assert(exec.queue_ids() == qb.push(w.id()));
                            assert(qb.push(w.id()) =~= qb + seq![w.id()]);
                            assert((qb + seq![w.id()]) + tail =~= qb + (seq![w.id()] + tail));
                        } else {
                            assert(exec.queue_ids() == qb);
                            assert(Seq::<u64>::empty() + tail =~= tail);
                        }
                        assert(exec.queue_ids() + tail == qb + woken_ids(wb, dom0, rem));
                    }
                },
                None => {
                    proof {
                        assert(!wb.contains_key(fd));
                        assert(self.wakers@ =~= wb);
                        assert(woken_ids(wb, dom0, rem) == woken_ids(wb, dom0, rest));
                        assert(remaining_table(wb, rem) == remaining_table(wb, rest));
                    }
                },
            }
            i = i + 1;
        }
        proof {
            assert(ready@.subrange(n as int, n as int) =~= Seq::<u64>::empty());
            assert(exec.queue_ids() + Seq::<u64>::empty() =~= exec.queue_ids());
        }
    }
}

/// The task identifiers a batch of readiness events wakes, in delivery
/// order: an event for a resource whose interest is still recorded fires
/// that interest's waker once, and the woken identifier is enqueued when
/// the executor knows it; an event for an absent resource wakes nothing.
pub open spec fn woken_ids(table: Map<u64, Waker>, known: Set<u64>, ready: Seq<u64>) -> Seq<u64>
    decreases ready.len(),
{
    if ready.len() == 0 {
        Seq::<u64>::empty()
    } else {
        let fd = ready[0];
        let rest = ready.subrange(1, ready.len() as int);
        if table.contains_key(fd) {
            let head: Seq<u64> = if known.contains(table[fd].id()) {
                seq![table[fd].id()]
            } else {
                Seq::<u64>::empty()
            };
            head + woken_ids(table.remove(fd), known, rest)
        } else {
            woken_ids(table, known, rest)
        }
    }
}

/// The registration table left after a batch of readiness events: each
/// event removes the interest recorded for its resource, if any.
pub open spec fn remaining_table(table: Map<u64, Waker>, ready: Seq<u64>) -> Map<u64, Waker>
    decreases ready.len(),
{
    if ready.len() == 0 {
        table
    } else {
        let fd = ready[0];
        let rest = ready.subrange(1, ready.len() as int);
        if table.contains_key(fd) {
            remaining_table(table.remove(fd), rest)
        } else {
            remaining_table(table, rest)
        }
    }
}

/// Law: a readiness event for one registered resource fires exactly the
/// waker registered for it — its task identifier is enqueued once when
/// the executor knows it — and removes that entry alone: every other
/// registered interest stays, unchanged.
pub proof fn lemma_fire_single_target(table: Map<u64, Waker>, known: Set<u64>, fd: u64)
    requires
        table.contains_key(fd),
        known.contains(table[fd].id()),
    ensures
        woken_ids(table, known, seq![fd]) == seq![table[fd].id()],
        remaining_table(table, seq![fd]) == table.remove(fd),
        forall|g: u64|
            g != fd && table.contains_key(g) ==> remaining_table(table, seq![fd]).contains_key(g)
                && remaining_table(table, seq![fd])[g] == table[g],
{
    let ready = seq![fd];
    let rest = ready.subrange(1, 1);
    assert(rest =~= Seq::<u64>::empty());
    assert(woken_ids(table.remove(fd), known, rest) == Seq::<u64>::empty());
    assert(seq![table[fd].id()] + Seq::<u64>::empty() =~= seq![table[fd].id()]);
    assert(remaining_table(table.remove(fd), rest) == table.remove(fd));
}

/// Law: one-shot delivery — after a resource's interest fires, its entry
/// is absent from the table, and a second readiness event for the same
/// identifier, without a re-registration, wakes nothing and removes
/// nothing.
pub proof fn lemma_fire_one_shot(table: Map<u64, Waker>, known: Set<u64>, fd: u64)
    ensures
        !remaining_table(table, seq![fd]).contains_key(fd),
        woken_ids(remaining_table(table, seq![fd]), known, seq![fd]) == Seq::<u64>::empty(),
        remaining_table(remaining_table(table, seq![fd]), seq![fd]) == remaining_table(
            table,
            seq![fd],
        ),
{
    let ready = seq![fd];
    let rest = ready.subrange(1, 1);
    assert(rest =~= Seq::<u64>::empty());
    let t1 = remaining_table(table, ready);
    if table.contains_key(fd) {
        assert(remaining_table(table.remove(fd), rest) == table.remove(fd));
        assert(t1 == table.remove(fd));
    } else {
        assert(remaining_table(table, rest) == table);
        assert(t1 == table);
    }
    assert(!t1.contains_key(fd));
    assert(woken_ids(t1, known, rest) == Seq::<u64>::empty());
    assert(woken_ids(t1, known, ready) == woken_ids(t1, known, rest));
    assert(remaining_table(t1, rest) == t1);
    assert(remaining_table(t1, ready) == t1);
}

} // verus!
