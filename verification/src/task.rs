//! The suspend/resume protocol: computations, poll outcomes, and wake handles.

use vstd::prelude::*;

use crate::executor::Executor;
use crate::reactor::{Reactor, Registration};

verus! {

/// Outcome of driving a computation one step forward.
pub enum Poll {
    /// The computation finished; it must never be polled again.
    Ready,
    /// The computation suspended; it runs again only after a stored
    /// wake handle is invoked.
    Pending,
}

/// A cheap, cloneable handle that re-admits its task to the owning
/// executor's run queue when invoked.
#[derive(Clone, Copy)]
pub struct Waker {
    task: u64,
}

impl Waker {
    /// The identifier of the task this handle wakes.
    pub closed spec fn id(&self) -> u64 {
        self.task
    }

    /// The identifier of the task this handle wakes.
    pub fn task_id(&self) -> (id: u64)
        ensures
            id == self.id(),
    {
        self.task
    }
}

/// Builds a wake handle for the task with the given identifier.
pub fn waker(task: u64) -> (w: Waker)
    ensures
        w.id() == task,
{
    Waker { task }
}

/// One suspendable unit of work.
///
/// The run loop drives an implementor one step at a time through `poll`,
/// handing it a fresh wake handle and access to the reactor so that a
/// suspending computation can store the handle by registering interest
/// in an OS resource.
pub trait Computation: Sized {
    /// Holds when a single poll completes the computation without
    /// touching the reactor; such computations never suspend.
    spec fn immediate(&self) -> bool;

    /// Drives the computation one step forward.
    fn poll(&mut self, waker: &Waker, reactor: &mut Reactor) -> (r: Poll)
        ensures
            old(self).immediate() ==> r is Ready && *final(reactor) == *old(reactor),
    ;
}

/// A computation that completes the first time it is polled, without
/// ever touching the reactor.
pub struct Immediate;

impl Computation for Immediate {
    open spec fn immediate(&self) -> bool {
        true
    }

    fn poll(&mut self, _waker: &Waker, reactor: &mut Reactor) -> (r: Poll) {
        Poll::Ready
    }
}

/// Progress of a `WaitOnce` computation.
#[derive(Clone, Copy, PartialEq, Eq, Structural, Debug)]
pub enum WaitPhase {
    /// Interest not yet registered with the reactor.
    Start,
    /// Interest registered and the wake handle stored; suspended.
    Parked,
    /// Completed.
    Finished,
}

/// A computation that registers interest in one OS resource, suspends
/// once, and completes the next time it is polled, which the runtime
/// does only after the stored wake handle fires.  If the reactor
/// refuses the registration, the computation completes at once rather
/// than suspend without a stored wake handle.
pub struct WaitOnce {
    fd: u64,
    writable: bool,
    phase: WaitPhase,
}

impl WaitOnce {
    /// The resource identifier this computation waits for.
    pub closed spec fn resource(&self) -> u64 {
        self.fd
    }

    /// Whether the interest is in writability rather than readability.
    pub closed spec fn write_interest(&self) -> bool {
        self.writable
    }

    /// How far the computation has progressed.
    pub closed spec fn phase(&self) -> WaitPhase {
        self.phase
    }

    /// A computation that will wait once for `fd`: for writability when
    /// `writable` is set, for readability otherwise.
    pub fn new(fd: u64, writable: bool) -> (c: Self)
        ensures
            c.resource() == fd,
            c.write_interest() == writable,
            c.phase() is Start,
    {
        WaitOnce { fd, writable, phase: WaitPhase::Start }
    }
}

impl Computation for WaitOnce {
    /// Only the first poll can suspend: once parked (or finished), the
    /// next poll completes without touching the reactor again.
    open spec fn immediate(&self) -> bool {
        !(self.phase() is Start)
    }

    /// One step of the suspend/resume protocol: the first poll stores the
    /// wake handle with the reactor and suspends; the poll after the wake
    /// completes; further polls stay completed and change nothing.
    fn poll(&mut self, waker: &Waker, reactor: &mut Reactor) -> (r: Poll)
        ensures
            final(self).resource() == old(self).resource(),
            final(self).write_interest() == old(self).write_interest(),
            old(self).phase() is Start && !old(reactor).table().contains_key(
                old(self).resource(),
            ) ==> {
                &&& r is Pending
                &&& final(self).phase() is Parked
                &&& final(reactor).table() == old(reactor).table().insert(
                    old(self).resource(),
                    *waker,
                )
                &&& final(reactor).pending_adds() == old(reactor).pending_adds().push(
                    (Registration {
                        fd: old(self).resource(),
                        writable: old(self).write_interest(),
                    }),
                )
            },
            old(self).phase() is Start && old(reactor).table().contains_key(
                old(self).resource(),
            ) ==> {
                &&& r is Ready
                &&& final(self).phase() is Finished
                &&& *final(reactor) == *old(reactor)
            },
            old(self).phase() is Parked ==> r is Ready && final(self).phase() is Finished
                && *final(reactor) == *old(reactor),
            old(self).phase() is Finished ==> r is Ready && final(self).phase() is Finished
                && *final(reactor) == *old(reactor),
    {
        match self.phase {
            WaitPhase::Start => {
                match reactor.register(self.fd, self.writable, *waker) {
                    Ok(()) => {
                        self.phase = WaitPhase::Parked;
                        Poll::Pending
                    },
                    Err(_) => {
                        self.phase = WaitPhase::Finished;
                        Poll::Ready
                    },
                }
            },
            WaitPhase::Parked => {
                self.phase = WaitPhase::Finished;
                Poll::Ready
            },
            WaitPhase::Finished => Poll::Ready,
        }
    }
}

/// Law: a computation that suspended once and was then woken exactly once
/// is ready to resume and complete.  An executor whose queue holds exactly
/// the woken task, parked and unfinished, meets the condition under which
/// `run` promises that the task is polled, completes, and is logged — and
/// a parked computation completes on that poll without suspending again.
pub proof fn lemma_woken_wait_once_resumes(e: Executor<WaitOnce>, id: u64)
    requires
        e.queue_ids() == seq![id],
        e.task_map().contains_key(id),
        !e.task_map()[id].is_done(),
        e.task_map()[id].work().phase() is Parked,
    ensures
        e.fifo_ready(),
{
    assert(forall|i: int| 0 <= i < e.queue_ids().len() ==> #[trigger] e.queue_ids()[i] == id);
}

} // verus!
