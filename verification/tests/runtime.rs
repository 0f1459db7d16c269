use minirt::executor::{Executor, RunStatus};
use minirt::reactor::{Reactor, RegisterError};
use minirt::task::{waker, Computation, Immediate, Poll, WaitOnce, Waker};
use std::cell::RefCell;
use std::rc::Rc;

/// A computation that prints and records a fixed message, then completes
/// on its first poll.
struct Announce {
    message: &'static str,
    log: Rc<RefCell<Vec<&'static str>>>,
}

impl Computation for Announce {
    fn immediate(&self) -> bool {
        true
    }

    fn poll(&mut self, _waker: &Waker, _reactor: &mut Reactor) -> Poll {
        println!("{}", self.message);
        self.log.borrow_mut().push(self.message);
        Poll::Ready
    }
}

/// A computation that registers read-interest once, suspends, and counts
/// how often it is resumed afterwards.
struct CountedWait {
    fd: u64,
    registered: bool,
    resumed: Rc<RefCell<u32>>,
}

impl Computation for CountedWait {
    fn immediate(&self) -> bool {
        false
    }

    fn poll(&mut self, waker: &Waker, reactor: &mut Reactor) -> Poll {
        if !self.registered {
            self.registered = true;
            reactor.register(self.fd, false, *waker).unwrap();
            Poll::Pending
        } else {
            *self.resumed.borrow_mut() += 1;
            Poll::Ready
        }
    }
}

#[test]
fn fifo_two_messages_in_submission_order() {
    let log: Rc<RefCell<Vec<&'static str>>> = Rc::new(RefCell::new(Vec::new()));
    let mut exec: Executor<Announce> = Executor::new();
    let mut reactor = Reactor::new();
    exec.spawn(Announce { message: "Hello from task 1", log: log.clone() });
    exec.spawn(Announce { message: "Hello from task 2", log: log.clone() });
    let st = exec.run(&mut reactor);
    assert_eq!(st, RunStatus::Idle);
    assert_eq!(exec.queue_len(), 0);
    assert_eq!(reactor.interest_count(), 0);
    assert_eq!(*log.borrow(), vec!["Hello from task 1", "Hello from task 2"]);
}

#[test]
fn fifo_many_tasks_complete_in_order() {
    let log: Rc<RefCell<Vec<&'static str>>> = Rc::new(RefCell::new(Vec::new()));
    let names = ["a", "b", "c", "d", "e"];
    let mut exec: Executor<Announce> = Executor::new();
    let mut reactor = Reactor::new();
    for name in names {
        exec.spawn(Announce { message: name, log: log.clone() });
    }
    let st = exec.run(&mut reactor);
    assert_eq!(st, RunStatus::Idle);
    assert_eq!(*log.borrow(), vec!["a", "b", "c", "d", "e"]);
}

#[test]
fn suspend_then_single_wake_resumes_once() {
    let resumed = Rc::new(RefCell::new(0u32));
    let mut exec: Executor<CountedWait> = Executor::new();
    let mut reactor = Reactor::new();
    let id = exec.spawn(CountedWait { fd: 7, registered: false, resumed: resumed.clone() });
    let st = exec.run(&mut reactor);
    // the task suspended: the run loop would now block in the reactor
    assert_eq!(st, RunStatus::Waiting);
    assert_eq!(exec.queue_len(), 0);
    assert!(reactor.is_registered(7));
    // not resumed before its wake
    assert_eq!(*resumed.borrow(), 0);
    assert_eq!(exec.task_done(id), Some(false));
    reactor.fire(&vec![7u64], &mut exec);
    assert_eq!(exec.queue_len(), 1);
    let st = exec.run(&mut reactor);
    assert_eq!(st, RunStatus::Idle);
    assert_eq!(*resumed.borrow(), 1);
    assert_eq!(exec.task_done(id), Some(true));
}

#[test]
fn wait_once_round_trip_on_resource_five() {
    let mut exec: Executor<WaitOnce> = Executor::new();
    let mut reactor = Reactor::new();
    let id = exec.spawn(WaitOnce::new(5, false));
    let st = exec.run(&mut reactor);
    assert_eq!(st, RunStatus::Waiting);
    assert!(reactor.is_registered(5));
    // the kernel command for the registration is handed out exactly once
    let cmds = reactor.take_pending();
    assert_eq!(cmds.len(), 1);
    assert_eq!(cmds[0].fd, 5);
    assert!(!cmds[0].writable);
    assert!(reactor.take_pending().is_empty());
    // a synthetic readiness event for resource 5 wakes the parked task
    reactor.fire(&vec![5u64], &mut exec);
    assert_eq!(exec.queue_len(), 1);
    let st = exec.run(&mut reactor);
    assert_eq!(st, RunStatus::Idle);
    assert_eq!(exec.task_done(id), Some(true));
    assert!(!reactor.is_registered(5));
}

#[test]
fn firing_one_resource_leaves_other_interests_alone() {
    let mut exec: Executor<WaitOnce> = Executor::new();
    let mut reactor = Reactor::new();
    let id5 = exec.spawn(WaitOnce::new(5, false));
    let id9 = exec.spawn(WaitOnce::new(9, true));
    let st = exec.run(&mut reactor);
    assert_eq!(st, RunStatus::Waiting);
    assert!(reactor.is_registered(5) && reactor.is_registered(9));
    reactor.fire(&vec![5u64], &mut exec);
    // exactly the waker registered for 5 fired
    assert_eq!(exec.queue_len(), 1);
    assert_eq!(exec.queue_entry(0), id5);
    assert!(!reactor.is_registered(5));
    assert!(reactor.is_registered(9));
    assert_eq!(exec.task_done(id9), Some(false));
}

#[test]
fn fired_resource_is_one_shot() {
    let mut exec: Executor<WaitOnce> = Executor::new();
    let mut reactor = Reactor::new();
    exec.spawn(WaitOnce::new(5, false));
    exec.run(&mut reactor);
    reactor.fire(&vec![5u64], &mut exec);
    assert_eq!(exec.queue_len(), 1);
    assert!(!reactor.is_registered(5));
    // a second synthetic event for 5, without re-registration, fires nothing
    reactor.fire(&vec![5u64], &mut exec);
    assert_eq!(exec.queue_len(), 1);
    assert!(!reactor.is_registered(5));
}

#[test]
fn duplicate_events_in_one_batch_fire_once() {
    let mut exec: Executor<WaitOnce> = Executor::new();
    let mut reactor = Reactor::new();
    exec.spawn(WaitOnce::new(5, false));
    exec.run(&mut reactor);
    assert!(reactor.is_registered(5));
    reactor.fire(&vec![5u64, 5u64], &mut exec);
    assert_eq!(exec.queue_len(), 1);
    assert!(!reactor.is_registered(5));
}

#[test]
fn double_wake_adds_two_entries_and_never_replays_a_finished_task() {
    let log: Rc<RefCell<Vec<&'static str>>> = Rc::new(RefCell::new(Vec::new()));
    let mut exec: Executor<Announce> = Executor::new();
    let mut reactor = Reactor::new();
    let id = exec.spawn(Announce { message: "once", log: log.clone() });
    let other = exec.spawn(Announce { message: "other", log: log.clone() });
    exec.run(&mut reactor);
    assert_eq!(*log.borrow(), vec!["once", "other"]);
    // wake the finished task twice before it next runs
    let w = waker(id);
    exec.wake(&w);
    exec.wake(&w);
    assert_eq!(exec.queue_len(), 2);
    assert_eq!(exec.queue_entry(0), id);
    assert_eq!(exec.queue_entry(1), id);
    // both entries drain without polling the finished computation again
    let st = exec.run(&mut reactor);
    assert_eq!(st, RunStatus::Idle);
    assert_eq!(exec.queue_len(), 0);
    assert_eq!(*log.borrow(), vec!["once", "other"]);
    assert_eq!(exec.task_done(other), Some(true));
}

#[test]
fn second_waiter_on_same_resource_completes_instead_of_stalling() {
    let mut exec: Executor<WaitOnce> = Executor::new();
    let mut reactor = Reactor::new();
    let first = exec.spawn(WaitOnce::new(5, false));
    let second = exec.spawn(WaitOnce::new(5, false));
    let st = exec.run(&mut reactor);
    assert_eq!(st, RunStatus::Waiting);
    // the first waiter holds the interest; the refused second one did not
    // suspend without a stored wake handle — it completed at once
    assert!(reactor.is_registered(5));
    assert_eq!(exec.task_done(first), Some(false));
    assert_eq!(exec.task_done(second), Some(true));
    // only the first registration reached the kernel command queue
    assert_eq!(reactor.take_pending().len(), 1);
    reactor.fire(&vec![5u64], &mut exec);
    let st = exec.run(&mut reactor);
    assert_eq!(st, RunStatus::Idle);
    assert_eq!(exec.task_done(first), Some(true));
}

#[test]
fn duplicate_registration_is_refused() {
    let mut reactor = Reactor::new();
    assert_eq!(reactor.register(5, false, waker(0)), Ok(()));
    assert_eq!(reactor.register(5, true, waker(1)), Err(RegisterError::DuplicateInterest));
    assert!(reactor.is_registered(5));
    // the refused attempt queued no kernel command
    let cmds = reactor.take_pending();
    assert_eq!(cmds.len(), 1);
    assert_eq!(cmds[0].fd, 5);
    assert!(!cmds[0].writable);
}

#[test]
fn waking_an_unknown_task_does_nothing() {
    let mut exec: Executor<Immediate> = Executor::new();
    exec.wake(&waker(42));
    assert_eq!(exec.queue_len(), 0);
}

#[test]
fn spawn_assigns_consecutive_ids_in_queue_order() {
    let mut exec: Executor<Immediate> = Executor::new();
    let a = exec.spawn(Immediate);
    let b = exec.spawn(Immediate);
    let c = exec.spawn(Immediate);
    assert_eq!((a, b, c), (0, 1, 2));
    assert_eq!(exec.queue_len(), 3);
    assert_eq!(exec.queue_entry(0), 0);
    assert_eq!(exec.queue_entry(1), 1);
    assert_eq!(exec.queue_entry(2), 2);
    assert_eq!(exec.task_done(a), Some(false));
    assert_eq!(exec.task_done(99), None);
}
