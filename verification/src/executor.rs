//! The executor: a FIFO run queue over an arena of tasks, and the run
//! loop that drives each queued task's computation one step at a time.

use vstd::prelude::*;

use std::collections::HashMap;
use std::collections::VecDeque;

use crate::reactor::Reactor;
use crate::task::{waker, Computation, Poll, Waker};

verus! {

broadcast use vstd::std_specs::hash::group_hash_axioms, vstd::std_specs::vecdeque::group_vec_dequeue_axioms;

/// One scheduled task: a suspendable computation plus the record of
/// whether it has reported completion.
pub struct Task<C> {
    computation: C,
    done: bool,
}

impl<C> Task<C> {
    /// Whether the computation has reported completion.
    pub closed spec fn is_done(&self) -> bool {
        self.done
    }

    /// The suspendable computation the task wraps.
    pub closed spec fn work(&self) -> C {
        self.computation
    }
}

/// What the run loop found when the queue emptied.
#[derive(Clone, Copy, PartialEq, Eq, Structural, Debug)]
pub enum RunStatus {
    /// No interest is registered with the reactor either: running is done.
    Idle,
    /// Interests remain: the embedding loop must block for readiness
    /// events and deliver them through the reactor before running again.
    Waiting,
}

/// What one wake does to the run queue: the task is appended when the
/// executor knows it; a handle for an unknown identifier wakes nothing.
pub open spec fn wake_step(known: Set<u64>, queue: Seq<u64>, id: u64) -> Seq<u64> {
    if known.contains(id) {
        queue.push(id)
    } else {
        queue
    }
}

/// How many entries of the queue name the given task.
pub open spec fn occurrences(queue: Seq<u64>, id: u64) -> nat
    decreases queue.len(),
{
    if queue.len() == 0 {
        0
    } else {
        occurrences(queue.drop_last(), id) + if queue.last() == id {
            1nat
        } else {
            0nat
        }
    }
}

/// One wake appends at most one entry for its task and leaves every
/// other task's entries exactly as they were.
pub proof fn lemma_wake_step_occurrences(known: Set<u64>, queue: Seq<u64>, id: u64, probe: u64)
    ensures
        probe != id ==> occurrences(wake_step(known, queue, id), probe) == occurrences(
            queue,
            probe,
        ),
        occurrences(wake_step(known, queue, id), id) <= occurrences(queue, id) + 1,
{
    if known.contains(id) {
        assert(queue.push(id).drop_last() =~= queue);
        assert(queue.push(id).last() == id);
    }
}

/// Law: invoking a task's wake handle twice before the task next runs
/// leaves at most two queue entries for it, keeps every other task's
/// entries exactly, and loses nothing: the old queue is a prefix of the
/// new one.
pub proof fn lemma_double_wake(known: Set<u64>, queue: Seq<u64>, id: u64)
    ensures
        occurrences(wake_step(known, wake_step(known, queue, id), id), id) <= occurrences(
            queue,
            id,
        ) + 2,
        forall|other: u64|
            other != id ==> occurrences(wake_step(known, wake_step(known, queue, id), id), other)
                == occurrences(queue, other),
        queue.is_prefix_of(wake_step(known, wake_step(known, queue, id), id)),
{
    let once = wake_step(known, queue, id);
    let twice = wake_step(known, once, id);
    lemma_wake_step_occurrences(known, queue, id, id);
    lemma_wake_step_occurrences(known, once, id, id);
    assert forall|other: u64| other != id implies occurrences(twice, other) == occurrences(
        queue,
        other,
    ) by {
        lemma_wake_step_occurrences(known, queue, id, other);
        lemma_wake_step_occurrences(known, once, id, other);
    }
    assert(twice.subrange(0, queue.len() as int) =~= queue);
}

/// The run queue and the arena of every task submitted so far.
pub struct Executor<C> {
    queue: VecDeque<u64>,
    tasks: HashMap<u64, Task<C>>,
    next_id: u64,
    finished: Ghost<Seq<u64>>,
}

impl<C: Computation> Executor<C> {
    /// The run queue, head first: identifiers of tasks awaiting a poll.
    pub closed spec fn queue_ids(&self) -> Seq<u64> {
        self.queue@
    }

    /// Every task submitted so far, by identifier; completed tasks stay,
    /// marked done, so that stale wake handles stay harmless.
    pub closed spec fn task_map(&self) -> Map<u64, Task<C>> {
        self.tasks@
    }

    /// Identifiers of the tasks that completed, in completion order.
    pub closed spec fn completed(&self) -> Seq<u64> {
        self.finished@
    }

    /// The identifier the next submission will receive.
    pub closed spec fn fresh_id(&self) -> u64 {
        self.next_id
    }

    /// Well-formedness: every identifier handed out so far lies below the
    /// next fresh one, so submissions never collide with existing tasks.
    pub open spec fn wf(&self) -> bool {
        forall|k: u64| #[trigger] self.task_map().dom().contains(k) ==> k < self.fresh_id()
    }

    /// Constructs an executor with no tasks and an empty queue.
    pub fn new() -> (e: Self)
        ensures
            e.wf(),
            e.queue_ids() == Seq::<u64>::empty(),
            e.task_map() == Map::<u64, Task<C>>::empty(),
            e.completed() == Seq::<u64>::empty(),
            e.fresh_id() == 0,
    {
        Executor {
            queue: VecDeque::new(),
            tasks: HashMap::new(),
            next_id: 0,
            finished: Ghost(Seq::empty()),
        }
    }

    /// Wraps `computation` as a fresh, unfinished task, appends it to the
    /// tail of the run queue, and returns its identifier.  Submission
    /// always succeeds.
    pub fn spawn(&mut self, computation: C) -> (id: u64)
        requires
            old(self).wf(),
            old(self).fresh_id() < u64::MAX,
        ensures
            final(self).wf(),
            id == old(self).fresh_id(),
            !old(self).task_map().contains_key(id),
            final(self).fresh_id() == old(self).fresh_id() + 1,
            final(self).queue_ids() == old(self).queue_ids().push(id),
            final(self).task_map().dom() == old(self).task_map().dom().insert(id),
            final(self).task_map().contains_key(id),
            !final(self).task_map()[id].is_done(),
            final(self).task_map()[id].work() == computation,
            forall|k: u64| #[trigger]
                old(self).task_map().contains_key(k) ==> final(self).task_map()[k] == old(
                    self,
                ).task_map()[k],
            final(self).completed() == old(self).completed(),
    {
        let id = self.next_id;
        self.next_id = self.next_id + 1;
        self.tasks.insert(id, Task { computation, done: false });
        self.queue.push_back(id);
        proof {
            assert(self.tasks@.dom() =~= old(self).tasks@.dom().insert(id));
            assert forall|k: u64| #[trigger] self.task_map().dom().contains(k) implies k
                < self.fresh_id() by {
                if k != id {
                    assert(old(self).task_map().dom().contains(k));
                }
            }
        }
        id
    }

    /// Invokes a wake handle: appends its task to the tail of the run
    /// queue.  Safe to call at any time; a handle for an identifier the
    /// executor does not know wakes nothing.
    pub fn wake(&mut self, w: &Waker)
        ensures
            final(self).task_map() == old(self).task_map(),
            final(self).completed() == old(self).completed(),
            final(self).fresh_id() == old(self).fresh_id(),
            final(self).queue_ids() == wake_step(
                old(self).task_map().dom(),
                old(self).queue_ids(),
                w.id(),
            ),
    {
        let id = w.task_id();
        if self.tasks.contains_key(&id) {
            self.queue.push_back(id);
        }
    }

    /// The identifier the next submission will receive.
    pub fn next_task_id(&self) -> (id: u64)
        ensures
            id == self.fresh_id(),
    {
        self.next_id
    }

    /// How many tasks are queued for a poll.
    pub fn queue_len(&self) -> (n: usize)
        ensures
            n == self.queue_ids().len(),
    {
        self.queue.len()
    }

    /// The task identifier at position `i` of the queue, head first.
    pub fn queue_entry(&self, i: usize) -> (id: u64)
        requires
            i < self.queue_ids().len(),
        ensures
            id == self.queue_ids()[i as int],
    {
        self.queue[i]
    }

    /// Whether the given task has reported completion; `None` for an
    /// identifier the executor does not know.
    pub fn task_done(&self, id: u64) -> (r: Option<bool>)
        ensures
            match r {
                Some(b) => self.task_map().contains_key(id) && b == self.task_map()[id].is_done(),
                None => !self.task_map().contains_key(id),
            },
    {
        match self.tasks.get(&id) {
            Some(t) => Some(t.done),
            None => None,
        }
    }

    /// The queue as `run` finds it when nothing will suspend: every entry
    /// names a distinct, known, unfinished task whose computation is
    /// immediate.
    pub open spec fn fifo_ready(&self) -> bool {
        &&& forall|i: int|
            0 <= i < self.queue_ids().len() ==> {
                let id = #[trigger] self.queue_ids()[i];
                &&& self.task_map().contains_key(id)
                &&& !self.task_map()[id].is_done()
                &&& self.task_map()[id].work().immediate()
            }
        &&& forall|i: int, j: int|
            0 <= i < j < self.queue_ids().len() ==> #[trigger] self.queue_ids()[i]
                != #[trigger] self.queue_ids()[j]
    }

    /// Drains the run queue to quiescence: repeatedly removes the head
    /// task and polls its computation with a fresh wake handle, marking
    /// the task finished when it reports ready.  A task that already
    /// completed is dequeued without being polled, and a suspended task
    /// is not re-queued here: only its stored wake handle re-admits it.
    /// Returns `Idle` when no reactor interest is left, `Waiting` when
    /// the embedding loop must block for readiness events.
    #[verifier::loop_isolation(false)]
    pub fn run(&mut self, reactor: &mut Reactor) -> (st: RunStatus)
        ensures
            final(self).queue_ids() == Seq::<u64>::empty(),
            final(self).task_map().dom() == old(self).task_map().dom(),
            final(self).fresh_id() == old(self).fresh_id(),
            // a task that was not queued is not polled: nothing observes a
            // suspended task before its wake
            forall|k: u64|
                (#[trigger] old(self).task_map().contains_key(k)) && !old(self).queue_ids().contains(k)
                    ==> final(self).task_map()[k] == old(self).task_map()[k],
            // a task that had completed is never polled again
            forall|k: u64|
                (#[trigger] old(self).task_map().contains_key(k)) && old(self).task_map()[k].is_done()
                    ==> final(self).task_map()[k] == old(self).task_map()[k],
            // the completion log only grows, and only by tasks that were
            // queued, each of which is now marked done
            old(self).completed().is_prefix_of(final(self).completed()),
            forall|i: int|
                old(self).completed().len() <= i < final(self).completed().len() ==> {
                    &&& old(self).queue_ids().contains(#[trigger] final(self).completed()[i])
                    &&& final(self).task_map().contains_key(final(self).completed()[i])
                    &&& final(self).task_map()[final(self).completed()[i]].is_done()
                },
            // the status says whether interest remains with the reactor
            st is Idle <==> final(reactor).table().len() == 0,
            // FIFO fairness: with no suspension, the queued tasks complete
            // in submission order and the reactor is untouched
            old(self).fifo_ready() ==> {
                &&& final(self).completed() == old(self).completed() + old(self).queue_ids()
                &&& *final(reactor) == *old(reactor)
                &&& forall|i: int|
                    0 <= i < old(self).queue_ids().len() ==> final(self).task_map()[
                        #[trigger] old(self).queue_ids()[i]
                    ].is_done()
            },
    {
        let ghost q0 = self.queue@;
        let ghost n = q0.len() as int;
        let ghost t0 = self.tasks@;
        let ghost f0 = self.finished@;
        let ghost fifo0 = self.fifo_ready();
        let ghost r0 = *reactor;
        let ghost mut k: int = 0;
        while self.queue.len() > 0
            invariant
                0 <= k <= n,
                n == q0.len(),
                self.queue@ == q0.subrange(k, n),
                self.tasks@.dom() == t0.dom(),
                self.next_id == old(self).next_id,
                forall|kk: u64|
                    #[trigger] t0.contains_key(kk) && !q0.subrange(0, k).contains(kk)
                        ==> self.tasks@[kk] == t0[kk],
                forall|kk: u64|
                    #[trigger] t0.contains_key(kk) && t0[kk].done ==> self.tasks@[kk] == t0[kk],
                f0.is_prefix_of(self.finished@),
                forall|i: int|
                    f0.len() <= i < self.finished@.len() ==> {
                        &&& q0.contains(#[trigger] self.finished@[i])
                        &&& self.tasks@.contains_key(self.finished@[i])
                        &&& self.tasks@[self.finished@[i]].done
                    },
                fifo0 ==> self.finished@ == f0 + q0.subrange(0, k),
                fifo0 ==> *reactor == r0,
                fifo0 ==> forall|i: int|
                    0 <= i < k ==> self.tasks@.contains_key(#[trigger] q0[i])
                        && self.tasks@[q0[i]].done,
                fifo0 ==> forall|i: int|
                    k <= i < n ==> t0.contains_key(#[trigger] q0[i]) && self.tasks@[q0[i]]
                        == t0[q0[i]],
            decreases n - k,
        {
            let id = self.queue.pop_front().unwrap();
            proof {
                assert(id == q0[k]);
                assert(q0.subrange(k, n).subrange(1, n - k) =~= q0.subrange(k + 1, n));
                if fifo0 {
                    assert(old(self).fifo_ready());
                    assert(t0.contains_key(q0[k]) && !t0[q0[k]].is_done()
                        && t0[q0[k]].work().immediate());
                    assert(self.tasks@[q0[k]] == t0[q0[k]]);
                }
            }
            let ghost tasks_before = self.tasks@;
            match self.tasks.remove(&id) {
                None => {
                    proof {
                        assert(self.tasks@.dom() =~= t0.dom());
                    }
                },
                Some(mut t) => {
                    let ghost t_before = t;
                    proof {
                        assert(t == tasks_before[id]);
                        if fifo0 {
                            assert(t == t0[id] && !t.done && t.computation.immediate());
                        }
                    }
                    if !t.done {
                        let w = waker(id);
                        let r = t.computation.poll(&w, reactor);
                        match r {
                            Poll::Ready => {
                                t.done = true;
                                self.finished = Ghost(self.finished@.push(id));
                            },
                            Poll::Pending => {},
                        }
                    }
                    self.tasks.insert(id, t);
                    proof {
                        assert(self.tasks@.dom() =~= t0.dom());
                        if t_before == t {
                            assert(self.tasks@ =~= tasks_before);
                        }
                    }
                },
            }
            proof {
                assert(q0.subrange(0, k + 1) =~= q0.subrange(0, k).push(q0[k]));
                if fifo0 {
                    assert(f0 + q0.subrange(0, k + 1) =~= (f0 + q0.subrange(0, k)).push(q0[k]));
                }
                k = k + 1;
                assert(q0.subrange(0, k)[k - 1] == q0[k - 1]);
                assert(q0.subrange(0, k).contains(q0[k - 1]));
                assert forall|kk: u64|
                    t0.contains_key(kk) && !q0.subrange(0, k).contains(kk) implies self.tasks@[kk]
                    == t0[kk] by {
                    assert(kk != q0[k - 1]);
                    if q0.subrange(0, k - 1).contains(kk) {
                        let i = choose|i: int|
                            0 <= i < k - 1 && #[trigger] q0.subrange(0, k - 1)[i] == kk;
                        assert(q0.subrange(0, k)[i] == kk);
                        assert(q0.subrange(0, k).contains(kk));
                    }
                    assert(!q0.subrange(0, k - 1).contains(kk));
                }
            }
        }
        proof {
            assert(self.queue@ =~= Seq::<u64>::empty());
            assert(q0.subrange(0, n) =~= q0);
            if fifo0 {
                assert(f0 + q0.subrange(0, n) =~= f0 + q0);
            }
        }
        if reactor.interest_count() == 0 {
            RunStatus::Idle
        } else {
            RunStatus::Waiting
        }
    }
}

} // verus!
