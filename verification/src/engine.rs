//! The dispatcher's decision: what its loop does next, given the store, the
//! time, and whether it was asked to stop. The loop itself, with its clock,
//! its lock and its thread, belongs to the caller.

use crate::job::Job;
use crate::listing::{due, in_service_order, lists, views, waiting, Jobs};
use crate::queue::QueueManager;
use vstd::prelude::*;

verus! {

/// How long the dispatcher waits, in milliseconds, before it looks again
/// after it found no job due.
pub const POLL_INTERVAL_MS: u64 = 100;

/// What the dispatcher's loop does next.
pub enum Step {
    /// Hand these jobs to execution, in this order, then look again.
    Dispatch(Vec<Job>),
    /// Wait this many milliseconds, then look again.
    Sleep(u64),
    /// Leave the loop.
    Exit,
}

/// Decides the next step of the dispatcher. Asked to stop, it leaves the
/// store alone and exits. Otherwise it takes every job that is due at `now`
/// out of the store, to be dispatched in the order in which they are served;
/// where none is due, it sleeps for [`POLL_INTERVAL_MS`].
pub fn step(queue: &mut QueueManager, now: i64, stop_requested: bool) -> (next: Step)
    requires
        old(queue).wf(),
    ensures
        final(queue).wf(),
        match next {
            Step::Exit => stop_requested && final(queue).same_as(old(queue)),
            Step::Sleep(ms) => {
                &&& !stop_requested
                &&& ms == POLL_INTERVAL_MS
                &&& due(old(queue)@, now as int) == Jobs::empty()
                &&& final(queue).same_as(old(queue))
            },
            Step::Dispatch(ready) => {
                &&& !stop_requested
                &&& ready@.len() > 0
                &&& lists(views(ready@), due(old(queue)@, now as int))
                &&& in_service_order(views(ready@))
                &&& final(queue)@ == waiting(old(queue)@, now as int)
                &&& final(queue).told_once_since(old(queue))
            },
        },
{
    if stop_requested {
        return Step::Exit;
    }
    let ready = queue.pop_ready(now);
    if ready.len() == 0 {
        assert(due(old(queue)@, now as int) =~= Jobs::empty());
        Step::Sleep(POLL_INTERVAL_MS)
    } else {
        Step::Dispatch(ready)
    }
}

} // verus!
