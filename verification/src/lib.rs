//! A single-process job scheduler: jobs wait in a store ordered by due time
//! and priority, are handed out once they are due, and are run by a worker
//! that looks their handler up by name and retries a bounded number of times.
//!
//! - [`job`]: a job, its lifecycle and the ordering relation.
//! - [`listing`]: sequences of jobs in order, and the laws of snapshots and
//!   batches.
//! - [`queue`]: the store, which tells a sink every change.
//! - [`engine`]: what the dispatcher does next.
//! - [`worker`]: handlers by name, and the running of jobs.
//! - [`tasks`]: tasks that come with the scheduler.
//! - [`heap`], [`channel`]: what the store and the worker take from
//!   `priority_queue` and from `std::sync::mpsc`, with the contracts that are
//!   assumed of them.

pub mod channel;
pub mod engine;
pub mod heap;
pub mod job;
pub mod listing;
pub mod queue;
pub mod tasks;
pub mod worker;
