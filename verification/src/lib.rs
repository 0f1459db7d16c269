//! A minimal cooperative task runtime: a single-threaded executor that
//! drives suspendable computations to completion, paired with a reactor
//! that maps OS readiness events back into task wake-ups.

pub mod executor;
pub mod reactor;
pub mod task;
