//! The job store: the jobs that wait for dispatch, ranked by due time and
//! priority, with a sink that is told the full listing after every change.

use crate::channel::offer;
use crate::heap::{
    heap_entries, heap_is_empty, heap_len, heap_new, heap_peek, heap_pop, heap_push, heap_remove,
    is_top, served_first, DueHeap, Ranks,
};
use crate::job::{listed_before, ranks_before, Job, JobView, Status};
use crate::listing::{
    distinct_ids, due, holds, ids, in_listing_order, in_service_order, insert_listed, is_first,
    is_snapshot, lemma_listing_order_is_service_order, lemma_snapshot_is_snapshot_of, lists,
    snapshot_of, views, waiting, well_formed, with_all, Jobs,
};
use std::collections::HashMap;
use std::sync::mpsc::Sender;
use vstd::prelude::*;

verus! {

/// Why the store refused a job.
#[derive(Clone, Copy, Debug, PartialEq, Eq, Structural)]
pub enum QueueError {
    /// A job with the same identifier is already held.
    DuplicateId,
}

/// The index and the jobs agree: the same identifiers, each job under its own
/// identifier and ranked by its own due time and priority.
spec fn agree(entries: Ranks, jobs: Map<u128, Job>) -> bool {
    &&& entries.dom() == jobs.dom()
    &&& forall|id: u128| #[trigger]
        jobs.contains_key(id) ==> {
            &&& jobs[id].id == id
            &&& entries[id] == (jobs[id].execution_time, jobs[id].priority)
        }
}

/// Where the index and the jobs agree, the job under the identifier of
/// greatest rank is served first.
proof fn lemma_top_is_first(entries: Ranks, jobs: Map<u128, Job>, id: u128)
    requires
        agree(entries, jobs),
        is_top(entries, id, entries[id]),
    ensures
        jobs.contains_key(id),
        is_first(jobs.map_values(|j: Job| j@), jobs[id]@),
{
    let m = jobs.map_values(|j: Job| j@);
    assert(jobs.contains_key(id));
    assert forall|other: u128| m.contains_key(other) implies ranks_before(
        jobs[id]@,
        #[trigger] m[other],
    ) by {
        assert(jobs.contains_key(other));
        assert(served_first(entries[id], entries[other]));
    }
}

/// The store of pending jobs: the jobs by identifier, an index that ranks the
/// identifiers by due time and priority, and the sink that is told every
/// change, if one is set.
pub struct QueueManager {
    heap: DueHeap,
    jobs: HashMap<u128, Job>,
    snapshot_tx: Option<Sender<Vec<Job>>>,
    sent: Ghost<Seq<Seq<JobView>>>,
}

impl View for QueueManager {
    type V = Jobs;

    closed spec fn view(&self) -> Jobs {
        self.jobs@.map_values(|j: Job| j@)
    }
}

impl Default for QueueManager {
    fn default() -> (q: QueueManager)
        ensures
            q.wf(),
            q@ == Jobs::empty(),
            !q.has_sink(),
            q.notified() == Seq::<Seq<JobView>>::empty(),
    {
        QueueManager::new()
    }
}

impl QueueManager {
    /// The index and the jobs of the store agree.
    pub closed spec fn wf(&self) -> bool {
        agree(heap_entries(self.heap), self.jobs@)
    }

    /// Whether a sink for snapshots is set.
    pub closed spec fn has_sink(&self) -> bool {
        self.snapshot_tx is Some
    }

    /// The snapshots handed to the sink so far, oldest first.
    pub closed spec fn notified(&self) -> Seq<Seq<JobView>> {
        self.sent@
    }

    /// What a store with a sink has handed over once `before` has changed
    /// into `self`; without a sink nothing is handed over.
    pub open spec fn told_once_since(&self, before: &QueueManager) -> bool {
        &&& self.has_sink() == before.has_sink()
        &&& self.notified() == if before.has_sink() {
            before.notified().push(snapshot_of(self@))
        } else {
            before.notified()
        }
    }

    /// Neither the jobs, nor the sink, nor what it was told differ from `before`.
    pub open spec fn same_as(&self, before: &QueueManager) -> bool {
        &&& self@ == before@
        &&& self.has_sink() == before.has_sink()
        &&& self.notified() == before.notified()
    }

    /// What a store holds is well formed: finitely many jobs, each under its
    /// own identifier.
    pub proof fn lemma_wf_view(&self)
        requires
            self.wf(),
        ensures
            well_formed(self@),
    {
        assert(self.jobs@.dom().finite());
        assert(self@.dom() =~= self.jobs@.dom());
    }

    /// An empty store without a sink.
    pub fn new() -> (q: QueueManager)
        ensures
            q.wf(),
            q@ == Jobs::empty(),
            !q.has_sink(),
            q.notified() == Seq::<Seq<JobView>>::empty(),
    {
        let q = QueueManager {
            heap: heap_new(),
            jobs: HashMap::new(),
            snapshot_tx: None,
            sent: Ghost(Seq::empty()),
        };
        assert(q@ =~= Jobs::empty());
        q
    }

    /// Sets the sink that is told every later change, in place of any earlier one.
    pub fn set_persistence(&mut self, tx: Sender<Vec<Job>>)
        requires
            old(self).wf(),
        ensures
            final(self).wf(),
            final(self)@ == old(self)@,
            final(self).has_sink(),
            final(self).notified() == old(self).notified(),
    {
        self.snapshot_tx = Some(tx);
    }

    /// The number of jobs held.
    pub fn len(&self) -> (n: usize)
        requires
            self.wf(),
        ensures
            n == self@.len(),
    {
        assert(self@.dom() =~= heap_entries(self.heap).dom());
        heap_len(&self.heap)
    }

    /// Whether no job is held.
    pub fn is_empty(&self) -> (empty: bool)
        requires
            self.wf(),
        ensures
            empty == (self@.len() == 0),
    {
        assert(self@.dom() =~= heap_entries(self.heap).dom());
        heap_is_empty(&self.heap)
    }

    /// The job that is served first, if any job is held; the store is not changed.
    pub fn peek(&self) -> (first: Option<&Job>)
        requires
            self.wf(),
        ensures
            match first {
                Some(job) => is_first(self@, job@),
                None => self@ == Jobs::empty(),
            },
    {
        match heap_peek(&self.heap) {
            Some((id, _, _)) => {
                let found = self.jobs.get(&id);
                proof {
                    lemma_top_is_first(heap_entries(self.heap), self.jobs@, id);
                }
                found
            },
            None => {
                assert(self@ =~= Jobs::empty());
                None
            },
        }
    }

    /// All jobs held, in listing order; the store is not changed.
    pub fn snapshot(&self) -> (all: Vec<Job>)
        requires
            self.wf(),
        ensures
            is_snapshot(views(all@), self@),
            in_service_order(views(all@)),
            views(all@) == snapshot_of(self@),
    {
        let mut all: Vec<Job> = Vec::new();
        let ghost mut source: Seq<int> = Seq::empty();
        proof {
            self.lemma_wf_view();
        }
        for pair in it: self.jobs.iter()
            invariant
                self.wf(),
                it.seq().len() == self.jobs@.len(),
                it.seq().no_duplicates(),
                forall|k: int|
                    0 <= k < it.seq().len() ==> self.jobs@.contains_key(
                        *(#[trigger] it.seq()[k]).0,
                    ) && self.jobs@[*it.seq()[k].0] == *it.seq()[k].1,
                all@.len() == it.index(),
                source.len() == all@.len(),
                forall|i: int|
                    0 <= i < all@.len() ==> 0 <= #[trigger] source[i] < it.index() && all@[i]
                        == *it.seq()[source[i]].1,
                forall|i: int| 0 <= i < all@.len() ==> holds(self@, (#[trigger] all@[i])@),
                in_listing_order(views(all@)),
        {
            let (_, job) = pair;
            let ghost here = it.index() as int;
            assert forall|i: int| 0 <= i < all@.len() implies (#[trigger] all@[i]).id
                != job.id by {
                let k = source[i];
                assert(self.jobs@.contains_key(*it.seq()[k].0));
                assert(self.jobs@.contains_key(*it.seq()[here].0));
                if all@[i].id == job.id {
                    assert(it.seq()[k] == it.seq()[here]);
                }
            }
            let ghost earlier = all@;
            let at = insert_listed(&mut all, job.clone());
            proof {
                source = source.insert(at as int, here);
                assert forall|i: int| 0 <= i < all@.len() implies 0 <= #[trigger] source[i]
                    < here + 1 && all@[i] == *it.seq()[source[i]].1 && holds(
                    self@,
                    all@[i]@,
                ) by {
                    if i < at {
                        assert(all@[i] == earlier[i]);
                    } else if i > at {
                        assert(all@[i] == earlier[i - 1]);
                    } else {
                        assert(self.jobs@.contains_key(*it.seq()[here].0));
                    }
                }
            }
        }
        proof {
            let s = views(all@);
            assert forall|i: int| 0 <= i < s.len() implies holds(self@, #[trigger] s[i]) by {
                assert(holds(self@, all@[i]@));
            }
            assert forall|i: int, j: int| 0 <= i < j < s.len() implies (#[trigger] s[i]).id != (
            #[trigger] s[j]).id by {
                assert(listed_before(s[i], s[j]));
                assert(holds(self@, s[i]));
                assert(holds(self@, s[j]));
            }
            assert(self@.dom() =~= self.jobs@.dom());
            lemma_snapshot_is_snapshot_of(s, self@);
            lemma_listing_order_is_service_order(s);
        }
        all
    }

    /// Hands the current snapshot to the sink, if one is set.
    fn notify_persistence(&mut self)
        requires
            old(self).wf(),
        ensures
            final(self).wf(),
            final(self)@ == old(self)@,
            final(self).told_once_since(old(self)),
    {
        if self.snapshot_tx.is_some() {
            let all = self.snapshot();
            proof {
                self.sent = Ghost(self.sent@.push(views(all@)));
            }
            match &self.snapshot_tx {
                Some(tx) => offer(tx, all),
                None => {},
            }
        }
    }

    /// Takes the job in, unless one with its identifier is already held, and
    /// tells the sink.
    pub fn push(&mut self, job: Job) -> (r: Result<(), QueueError>)
        requires
            old(self).wf(),
        ensures
            final(self).wf(),
            if old(self)@.contains_key(job.id) {
                r == Err::<(), QueueError>(QueueError::DuplicateId) && final(self).same_as(
                    old(self),
                )
            } else {
                &&& r is Ok
                &&& final(self)@ == old(self)@.insert(job.id, job@)
                &&& final(self).told_once_since(old(self))
            },
    {
        let id = job.id;
        if self.jobs.contains_key(&id) {
            return Err(QueueError::DuplicateId);
        }
        let time = job.execution_time;
        let priority = job.priority;
        self.jobs.insert(id, job);
        heap_push(&mut self.heap, id, time, priority);
        assert(self@ =~= old(self)@.insert(id, job@));
        self.notify_persistence();
        Ok(())
    }

    /// Takes out the job that is served first, if any job is held, and tells
    /// the sink.
    pub fn pop(&mut self) -> (first: Option<Job>)
        requires
            old(self).wf(),
        ensures
            final(self).wf(),
            match first {
                Some(job) => {
                    &&& is_first(old(self)@, job@)
                    &&& final(self)@ == old(self)@.remove(job.id)
                    &&& final(self).told_once_since(old(self))
                },
                None => old(self)@ == Jobs::empty() && final(self).same_as(old(self)),
            },
    {
        match heap_pop(&mut self.heap) {
            Some((id, _, _)) => {
                proof {
                    lemma_top_is_first(heap_entries(old(self).heap), self.jobs@, id);
                }
                let removed = self.jobs.remove(&id);
                assert(self@ =~= old(self)@.remove(id));
                self.notify_persistence();
                removed
            },
            None => {
                assert(self@ =~= Jobs::empty());
                None
            },
        }
    }

    /// Takes out the job with the given identifier, if it is held, and tells
    /// the sink.
    pub fn remove(&mut self, id: u128) -> (removed: Option<Job>)
        requires
            old(self).wf(),
        ensures
            final(self).wf(),
            match removed {
                Some(job) => {
                    &&& holds(old(self)@, job@)
                    &&& job.id == id
                    &&& final(self)@ == old(self)@.remove(id)
                    &&& final(self).told_once_since(old(self))
                },
                None => !old(self)@.contains_key(id) && final(self).same_as(old(self)),
            },
    {
        match heap_remove(&mut self.heap, id) {
            Some(_) => {
                let removed = self.jobs.remove(&id);
                assert(self@ =~= old(self)@.remove(id));
                self.notify_persistence();
                removed
            },
            None => {
                assert(heap_entries(self.heap) =~= heap_entries(old(self).heap));
                None
            },
        }
    }

    /// Sets the status of the job with the given identifier, if it is held,
    /// and tells the sink; says whether it is held.
    pub fn update_status(&mut self, id: u128, new_status: Status) -> (found: bool)
        requires
            old(self).wf(),
        ensures
            final(self).wf(),
            found == old(self)@.contains_key(id),
            if found {
                &&& final(self)@ == old(self)@.insert(
                    id,
                    JobView { status: new_status, ..old(self)@[id] },
                )
                &&& final(self).told_once_since(old(self))
            } else {
                final(self).same_as(old(self))
            },
    {
        match self.jobs.remove(&id) {
            Some(job) => {
                let mut job = job;
                job.status = new_status;
                self.jobs.insert(id, job);
                assert(self.jobs@.dom() =~= old(self).jobs@.dom());
                assert(self@ =~= old(self)@.insert(
                    id,
                    JobView { status: new_status, ..old(self)@[id] },
                ));
                self.notify_persistence();
                true
            },
            None => {
                assert(self.jobs@ =~= old(self).jobs@);
                false
            },
        }
    }

    /// Takes out every job that is due at `now` and returns them in the order
    /// in which they are served; the sink is told once if any job left.
    pub fn pop_ready(&mut self, now: i64) -> (ready: Vec<Job>)
        requires
            old(self).wf(),
        ensures
            final(self).wf(),
            lists(views(ready@), due(old(self)@, now as int)),
            in_service_order(views(ready@)),
            final(self)@ == waiting(old(self)@, now as int),
            if ready@.len() > 0 {
                final(self).told_once_since(old(self))
            } else {
                final(self).same_as(old(self))
            },
    {
        let mut ready: Vec<Job> = Vec::new();
        let mut done = false;
        proof {
            old(self).lemma_wf_view();
        }
        while !done
            invariant
                self.wf(),
                old(self).wf(),
                self.has_sink() == old(self).has_sink(),
                self.notified() == old(self).notified(),
                in_service_order(views(ready@)),
                distinct_ids(views(ready@)),
                forall|i: int|
                    0 <= i < ready@.len() ==> {
                        &&& holds(old(self)@, (#[trigger] ready@[i])@)
                        &&& ready@[i].execution_time <= now
                        &&& !self@.contains_key(ready@[i].id)
                    },
                forall|i: int, id: u128|
                    0 <= i < ready@.len() && self@.contains_key(id) ==> ranks_before(
                        (#[trigger] ready@[i])@,
                        #[trigger] self@[id],
                    ),
                forall|id: u128| #[trigger]
                    self@.contains_key(id) ==> old(self)@.contains_key(id) && old(self)@[id]
                        == self@[id],
                forall|id: u128| #[trigger]
                    old(self)@.contains_key(id) ==> self@.contains_key(id) || ids(
                        views(ready@),
                    ).contains(id),
                done ==> forall|id: u128|
                    self@.contains_key(id) ==> (#[trigger] self@[id]).execution_time > now,
            decreases self.jobs@.len() + (if done { 0int } else { 1int }),
        {
            match heap_peek(&self.heap) {
                None => {
                    assert(self@ =~= Jobs::empty());
                    done = true;
                },
                Some((id, _, _)) => {
                    proof {
                        lemma_top_is_first(heap_entries(self.heap), self.jobs@, id);
                    }
                    let is_due = match self.jobs.get(&id) {
                        Some(job) => job.execution_time <= now,
                        None => false,
                    };
                    if is_due {
                        let ghost before = *self;
                        let ghost taken = views(ready@);
                        let (top, _, _) = heap_pop(&mut self.heap).unwrap();
                        proof {
                            lemma_top_is_first(heap_entries(before.heap), self.jobs@, top);
                            assert(served_first(
                                heap_entries(before.heap)[top],
                                heap_entries(before.heap)[id],
                            ));
                        }
                        let job = self.jobs.remove(&top).unwrap();
                        ready.push(job);
                        proof {
                            let now_taken = views(ready@);
                            assert(self@ =~= before@.remove(top));
                            assert(now_taken =~= taken.push(job@));
                            assert forall|i: int, j: int| 0 <= i < j < now_taken.len() implies {
                                &&& ranks_before(#[trigger] now_taken[i], #[trigger] now_taken[j])
                                &&& now_taken[i].id != now_taken[j].id
                            } by {
                                if j < taken.len() {
                                    assert(ranks_before(taken[i], taken[j]));
                                    assert(taken[i].id != taken[j].id);
                                } else {
                                    assert(before@.contains_key(top));
                                    assert(ranks_before(ready@[i]@, before@[top]));
                                }
                            }
                            assert forall|id: u128| #[trigger]
                                old(self)@.contains_key(id) implies self@.contains_key(id) || ids(
                                now_taken,
                            ).contains(id) by {
                                if id == top {
                                    assert(ids(now_taken)[taken.len() as int] == top);
                                } else if !before@.contains_key(id) {
                                    let i = choose|i: int|
                                        0 <= i < ids(taken).len() && ids(taken)[i] == id;
                                    assert(ids(now_taken)[i] == id);
                                }
                            }
                        }
                    } else {
                        proof {
                            assert forall|other: u128| self@.contains_key(other) implies (
                            #[trigger] self@[other]).execution_time > now by {
                                assert(ranks_before(self.jobs@[id]@, self@[other]));
                            }
                        }
                        done = true;
                    }
                },
            }
        }
        proof {
            let taken = views(ready@);
            let target = due(old(self)@, now as int);
            assert(self@ =~= waiting(old(self)@, now as int));
            assert(ids(taken).no_duplicates()) by {
                assert forall|i: int, j: int|
                    0 <= i < ids(taken).len() && 0 <= j < ids(taken).len() && i != j implies ids(
                    taken,
                )[i] != ids(taken)[j] by {
                    if i < j {
                        assert(taken[i].id != taken[j].id);
                    } else {
                        assert(taken[j].id != taken[i].id);
                    }
                }
            }
            ids(taken).unique_seq_to_set();
            assert(ids(taken).to_set() =~= target.dom()) by {
                assert forall|id: u128|
                    ids(taken).to_set().contains(id) implies target.dom().contains(id) by {
                    let i = choose|i: int| 0 <= i < ids(taken).len() && ids(taken)[i] == id;
                    assert(holds(old(self)@, ready@[i]@));
                }
                assert forall|id: u128| target.dom().contains(id) implies ids(
                    taken,
                ).to_set().contains(id) by {
                    assert(old(self)@.contains_key(id));
                    if self@.contains_key(id) {
                        assert(self@[id].execution_time > now);
                    }
                }
            }
            assert forall|i: int| 0 <= i < taken.len() implies holds(
                target,
                #[trigger] taken[i],
            ) by {
                assert(holds(old(self)@, ready@[i]@));
            }
            if taken.len() == 0 {
                assert forall|id: u128| old(self)@.contains_key(id) implies self@.contains_key(
                    id,
                ) by {
                    assert(!ids(taken).contains(id));
                }
                assert(self@ =~= old(self)@);
            }
        }
        if ready.len() > 0 {
            self.notify_persistence();
        }
        ready
    }

    /// Puts the jobs in one by one, a later job taking the place of a job with
    /// the same identifier, and tells the sink once.
    pub fn load_from_vec(&mut self, jobs: Vec<Job>)
        requires
            old(self).wf(),
        ensures
            final(self).wf(),
            final(self)@ == with_all(old(self)@, views(jobs@)),
            final(self).told_once_since(old(self)),
    {
        let ghost all = views(jobs@);
        for job in it: jobs
            invariant
                self.wf(),
                self.has_sink() == old(self).has_sink(),
                self.notified() == old(self).notified(),
                views(it.seq()) == all,
                self@ == with_all(old(self)@, all.take(it.index() as int)),
        {
            let ghost i = it.index() as int;
            let ghost before = self@;
            let id = job.id;
            let time = job.execution_time;
            let priority = job.priority;
            self.jobs.insert(id, job);
            heap_push(&mut self.heap, id, time, priority);
            proof {
                assert(self@ =~= before.insert(id, job@));
                assert(all.take(i + 1).drop_last() =~= all.take(i));
                assert(all.take(i + 1).last() == job@);
            }
        }
        assert(all.take(all.len() as int) =~= all);
        self.notify_persistence();
    }
}

} // verus!
