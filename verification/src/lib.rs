//! A failure resistant, load balancing task pool.
//!
//! The pool runs jobs on a bounded set of worker threads and replaces any
//! worker that terminates abnormally, so its capacity self-heals.  This crate
//! verifies the pool's protocol: the shared job queue, the worker loop, the
//! scope-exit watcher that reports a worker's death, the monitor that decides
//! between respawning a replacement and winding down, and the shutdown
//! protocol that separates "a worker died" from "the pool is being torn
//! down".  The protocol is stated as a transition system over [`pool::TaskPool`];
//! what holds of its runs is proved in [`laws`] and, for arbitrary
//! interleavings, in [`trace`]; the thread and channel plumbing that realises
//! the transitions lives outside the verified library.

pub mod laws;
pub mod pool;
pub mod trace;
