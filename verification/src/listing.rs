//! Sequences of jobs in order: what it means to list a set of jobs, the two
//! orders in which the scheduler lists them, and how a sorted listing is built.

use crate::job::{listed_before, ranks_before, Job, JobView};
use vstd::prelude::*;

verus! {

/// Jobs by identifier: what a store holds.
pub type Jobs = Map<u128, JobView>;

/// The values of a sequence of jobs.
pub open spec fn views(jobs: Seq<Job>) -> Seq<JobView> {
    jobs.map_values(|j: Job| j@)
}

/// `j` is held by `m`, under its own identifier.
pub open spec fn holds(m: Jobs, j: JobView) -> bool {
    m.contains_key(j.id) && m[j.id] == j
}

/// `m` is finite and holds each job under the job's own identifier.
pub open spec fn well_formed(m: Jobs) -> bool {
    &&& m.dom().finite()
    &&& forall|id: u128| m.contains_key(id) ==> (#[trigger] m[id]).id == id
}

/// No identifier occurs twice in `s`.
pub open spec fn distinct_ids(s: Seq<JobView>) -> bool {
    forall|i: int, j: int| 0 <= i < j < s.len() ==> (#[trigger] s[i]).id != (#[trigger] s[j]).id
}

/// `s` lists the jobs of `m`, each of them once.
pub open spec fn lists(s: Seq<JobView>, m: Jobs) -> bool {
    &&& m.dom().finite()
    &&& s.len() == m.len()
    &&& forall|i: int| 0 <= i < s.len() ==> holds(m, #[trigger] s[i])
    &&& distinct_ids(s)
}

/// `s` is sorted by the ordering relation.
pub open spec fn in_service_order(s: Seq<JobView>) -> bool {
    forall|i: int, j: int| 0 <= i < j < s.len() ==> ranks_before(#[trigger] s[i], #[trigger] s[j])
}

/// `s` is sorted in listing order.
pub open spec fn in_listing_order(s: Seq<JobView>) -> bool {
    forall|i: int, j: int| 0 <= i < j < s.len() ==> listed_before(#[trigger] s[i], #[trigger] s[j])
}

/// `s` is a snapshot of `m`: all its jobs, in listing order.
pub open spec fn is_snapshot(s: Seq<JobView>, m: Jobs) -> bool {
    lists(s, m) && in_listing_order(s)
}

/// The snapshot of `m`. There is at most one ([`lemma_snapshot_unique`]), and
/// there is one where `m` is well formed ([`lemma_snapshot_exists`]).
pub open spec fn snapshot_of(m: Jobs) -> Seq<JobView> {
    choose|s: Seq<JobView>| is_snapshot(s, m)
}

/// `j` is held by `m` and no job of `m` is served strictly before it.
pub open spec fn is_first(m: Jobs, j: JobView) -> bool {
    &&& holds(m, j)
    &&& forall|id: u128| m.contains_key(id) ==> ranks_before(j, #[trigger] m[id])
}

/// The jobs of `m` that are due at `now`.
pub open spec fn due(m: Jobs, now: int) -> Jobs {
    m.restrict(Set::new(|id: u128| m[id].execution_time <= now))
}

/// The jobs of `m` that are not yet due at `now`.
pub open spec fn waiting(m: Jobs, now: int) -> Jobs {
    m.restrict(Set::new(|id: u128| m[id].execution_time > now))
}

/// `m` after the jobs of `jobs` were put in one by one, a later job taking
/// the place of an earlier one with the same identifier.
pub open spec fn with_all(m: Jobs, jobs: Seq<JobView>) -> Jobs
    decreases jobs.len(),
{
    if jobs.len() == 0 {
        m
    } else {
        with_all(m, jobs.drop_last()).insert(jobs.last().id, jobs.last())
    }
}

/// The identifiers of a sequence of jobs.
pub open spec fn ids(s: Seq<JobView>) -> Seq<u128> {
    s.map_values(|j: JobView| j.id)
}

/// Listing order refines the ordering relation: what is in listing order is
/// in service order.
pub proof fn lemma_listing_order_is_service_order(s: Seq<JobView>)
    requires
        in_listing_order(s),
    ensures
        in_service_order(s),
{
    assert forall|i: int, j: int| 0 <= i < j < s.len() implies ranks_before(
        #[trigger] s[i],
        #[trigger] s[j],
    ) by {
        assert(listed_before(s[i], s[j]));
    }
}

/// A listing of `m` names every identifier of `m`.
pub proof fn lemma_listing_is_complete(s: Seq<JobView>, m: Jobs)
    requires
        lists(s, m),
    ensures
        ids(s).no_duplicates(),
        ids(s).to_set() == m.dom(),
        forall|id: u128|
            m.contains_key(id) ==> exists|i: int| 0 <= i < s.len() && #[trigger] s[i] == m[id],
{
    let names = ids(s);
    assert forall|i: int, j: int|
        0 <= i < names.len() && 0 <= j < names.len() && i != j implies names[i] != names[j] by {
        if i < j {
            assert(s[i].id != s[j].id);
        } else {
            assert(s[j].id != s[i].id);
        }
    }
    names.unique_seq_to_set();
    assert(names.to_set().subset_of(m.dom())) by {
        assert forall|id: u128| names.to_set().contains(id) implies m.dom().contains(id) by {
            let i = choose|i: int| 0 <= i < names.len() && names[i] == id;
            assert(holds(m, s[i]));
        }
    }
    vstd::set_lib::lemma_subset_equality(names.to_set(), m.dom());
    assert forall|id: u128| m.contains_key(id) implies exists|i: int|
        0 <= i < s.len() && #[trigger] s[i] == m[id] by {
        assert(names.to_set().contains(id));
        let i = choose|i: int| 0 <= i < names.len() && names[i] == id;
        assert(holds(m, s[i]));
        assert(s[i] == m[id]);
    }
}

/// Two snapshots of the same jobs are the same sequence.
pub proof fn lemma_snapshot_unique(s1: Seq<JobView>, s2: Seq<JobView>, m: Jobs)
    requires
        is_snapshot(s1, m),
        is_snapshot(s2, m),
    ensures
        s1 == s2,
    decreases s1.len(),
{
    if s1.len() > 0 {
        let a = s1[0];
        let b = s2[0];
        lemma_listing_is_complete(s1, m);
        lemma_listing_is_complete(s2, m);
        assert(holds(m, a));
        assert(holds(m, b));
        let k = choose|k: int| 0 <= k < s1.len() && #[trigger] s1[k] == m[b.id];
        let l = choose|l: int| 0 <= l < s2.len() && #[trigger] s2[l] == m[a.id];
        if k > 0 && l > 0 {
            assert(listed_before(s1[0], s1[k]));
            assert(listed_before(s2[0], s2[l]));
        }
        assert(a == b);
        let rest = m.remove(a.id);
        let t1 = s1.drop_first();
        let t2 = s2.drop_first();
        assert(is_snapshot(t1, rest)) by {
            assert forall|i: int| 0 <= i < t1.len() implies holds(rest, #[trigger] t1[i]) by {
                assert(holds(m, s1[i + 1]));
                assert(s1[0].id != s1[i + 1].id);
            }
            assert forall|i: int, j: int| 0 <= i < j < t1.len() implies listed_before(
                #[trigger] t1[i],
                #[trigger] t1[j],
            ) && t1[i].id != t1[j].id by {
                assert(listed_before(s1[i + 1], s1[j + 1]));
                assert(s1[i + 1].id != s1[j + 1].id);
            }
        }
        assert(is_snapshot(t2, rest)) by {
            assert forall|i: int| 0 <= i < t2.len() implies holds(rest, #[trigger] t2[i]) by {
                assert(holds(m, s2[i + 1]));
                assert(s2[0].id != s2[i + 1].id);
            }
            assert forall|i: int, j: int| 0 <= i < j < t2.len() implies listed_before(
                #[trigger] t2[i],
                #[trigger] t2[j],
            ) && t2[i].id != t2[j].id by {
                assert(listed_before(s2[i + 1], s2[j + 1]));
                assert(s2[i + 1].id != s2[j + 1].id);
            }
        }
        lemma_snapshot_unique(t1, t2, rest);
        assert(s1 =~= seq![a] + t1);
        assert(s2 =~= seq![b] + t2);
    } else {
        assert(s1 =~= s2);
    }
}

/// A snapshot of `m` is the snapshot of `m`.
pub proof fn lemma_snapshot_is_snapshot_of(s: Seq<JobView>, m: Jobs)
    requires
        is_snapshot(s, m),
    ensures
        s == snapshot_of(m),
{
    lemma_snapshot_unique(s, snapshot_of(m), m);
}

/// Where `j` belongs in `s`: the number of jobs at the head of `s` that are
/// listed before it.
pub open spec fn place_of(s: Seq<JobView>, j: JobView) -> int
    decreases s.len(),
{
    if s.len() == 0 || !listed_before(s[0], j) {
        0
    } else {
        1 + place_of(s.drop_first(), j)
    }
}

/// A job put at its place keeps a listing in order.
pub proof fn lemma_place_keeps_order(s: Seq<JobView>, j: JobView)
    requires
        in_listing_order(s),
        forall|i: int| 0 <= i < s.len() ==> (#[trigger] s[i]).id != j.id,
    ensures
        0 <= place_of(s, j) <= s.len(),
        in_listing_order(s.insert(place_of(s, j), j)),
    decreases s.len(),
{
    if s.len() == 0 || !listed_before(s[0], j) {
        let longer = s.insert(0, j);
        assert forall|a: int, b: int| 0 <= a < b < longer.len() implies listed_before(
            #[trigger] longer[a],
            #[trigger] longer[b],
        ) by {
            if a == 0 {
                assert(s[0].id != j.id);
                if b > 1 {
                    assert(listed_before(s[0], s[b - 1]));
                }
            } else {
                assert(listed_before(s[a - 1], s[b - 1]));
            }
        }
    } else {
        let rest = s.drop_first();
        assert forall|a: int, b: int| 0 <= a < b < rest.len() implies listed_before(
            #[trigger] rest[a],
            #[trigger] rest[b],
        ) by {
            assert(listed_before(s[a + 1], s[b + 1]));
        }
        assert forall|i: int| 0 <= i < rest.len() implies (#[trigger] rest[i]).id != j.id by {
            assert(s[i + 1].id != j.id);
        }
        lemma_place_keeps_order(rest, j);
        let p = place_of(rest, j);
        let longer = s.insert(p + 1, j);
        assert(longer =~= seq![s[0]] + rest.insert(p, j));
        let tail = rest.insert(p, j);
        assert forall|a: int, b: int| 0 <= a < b < longer.len() implies listed_before(
            #[trigger] longer[a],
            #[trigger] longer[b],
        ) by {
            if a == 0 {
                if b - 1 == p {
                } else if b - 1 < p {
                    assert(listed_before(s[0], s[b]));
                } else {
                    assert(listed_before(s[0], s[b - 1]));
                }
            } else {
                assert(listed_before(tail[a - 1], tail[b - 1]));
            }
        }
    }
}

/// A snapshot with a job of a new identifier put at its place is the snapshot
/// of the jobs with that job put in.
pub proof fn lemma_snapshot_with(s: Seq<JobView>, m: Jobs, j: JobView)
    requires
        is_snapshot(s, m),
        !m.contains_key(j.id),
    ensures
        is_snapshot(s.insert(place_of(s, j), j), m.insert(j.id, j)),
{
    assert forall|i: int| 0 <= i < s.len() implies (#[trigger] s[i]).id != j.id by {
        assert(holds(m, s[i]));
    }
    lemma_place_keeps_order(s, j);
    let p = place_of(s, j);
    let longer = s.insert(p, j);
    let more = m.insert(j.id, j);
    assert forall|i: int| 0 <= i < longer.len() implies holds(more, #[trigger] longer[i]) by {
        if i < p {
            assert(holds(m, s[i]));
        } else if i > p {
            assert(holds(m, s[i - 1]));
        }
    }
    assert forall|a: int, b: int| 0 <= a < b < longer.len() implies (#[trigger] longer[a]).id != (
    #[trigger] longer[b]).id by {
        assert(listed_before(longer[a], longer[b]));
        assert(holds(more, longer[a]));
        assert(holds(more, longer[b]));
    }
}

/// A snapshot without the job at one of its places is the snapshot of the
/// jobs with that job taken out.
pub proof fn lemma_snapshot_without(s: Seq<JobView>, m: Jobs, at: int)
    requires
        is_snapshot(s, m),
        0 <= at < s.len(),
    ensures
        is_snapshot(s.remove(at), m.remove(s[at].id)),
{
    let shorter = s.remove(at);
    let fewer = m.remove(s[at].id);
    assert(holds(m, s[at]));
    assert forall|i: int| 0 <= i < shorter.len() implies holds(fewer, #[trigger] shorter[i]) by {
        if i < at {
            assert(holds(m, s[i]));
            assert(s[i].id != s[at].id);
        } else {
            assert(holds(m, s[i + 1]));
            assert(s[at].id != s[i + 1].id);
        }
    }
    assert forall|a: int, b: int| 0 <= a < b < shorter.len() implies listed_before(
        #[trigger] shorter[a],
        #[trigger] shorter[b],
    ) && shorter[a].id != shorter[b].id by {
        let a0 = if a < at { a } else { a + 1 };
        let b0 = if b < at { b } else { b + 1 };
        assert(listed_before(s[a0], s[b0]));
        assert(s[a0].id != s[b0].id);
    }
}

/// Well-formed jobs have a snapshot.
pub proof fn lemma_snapshot_exists(m: Jobs)
    requires
        well_formed(m),
    ensures
        is_snapshot(snapshot_of(m), m),
    decreases m.len(),
{
    if m.len() == 0 {
        assert(is_snapshot(Seq::<JobView>::empty(), m));
    } else {
        let id = m.dom().choose();
        let rest = m.remove(id);
        lemma_snapshot_exists(rest);
        lemma_snapshot_with(snapshot_of(rest), rest, m[id]);
        assert(rest.insert(id, m[id]) =~= m);
    }
}

/// Each job of a batch of due jobs is served first among the jobs that are
/// still held when its turn comes: no job of `m` other than those before it
/// in the batch is served strictly before it.
pub proof fn lemma_batch_serves_first(batch: Seq<JobView>, m: Jobs, now: int)
    requires
        lists(batch, due(m, now)),
        in_service_order(batch),
    ensures
        forall|i: int, id: u128|
            0 <= i < batch.len() && m.contains_key(id) && !ids(batch.take(i)).contains(id)
                ==> ranks_before(#[trigger] batch[i], #[trigger] m[id]),
{
    lemma_listing_is_complete(batch, due(m, now));
    assert forall|i: int, id: u128|
        0 <= i < batch.len() && m.contains_key(id) && !ids(batch.take(i)).contains(
            id,
        ) implies ranks_before(#[trigger] batch[i], #[trigger] m[id]) by {
        assert(holds(due(m, now), batch[i]));
        if due(m, now).contains_key(id) {
            let j = choose|j: int|
                0 <= j < batch.len() && #[trigger] batch[j] == due(m, now)[id];
            assert(holds(due(m, now), batch[j]));
            if j < i {
                assert(ids(batch.take(i))[j] == batch[j].id);
            } else if i < j {
                assert(ranks_before(batch[i], batch[j]));
            }
        }
    }
}

/// A batch of due jobs is a prefix of the service order: every job in it is
/// due, every job left behind is not, no due job is left behind, and every
/// job in the batch is served strictly before every job left behind.
pub proof fn lemma_batch_is_due_prefix(batch: Seq<JobView>, m: Jobs, now: int)
    requires
        lists(batch, due(m, now)),
    ensures
        forall|i: int|
            0 <= i < batch.len() ==> holds(m, #[trigger] batch[i]) && batch[i].execution_time
                <= now,
        forall|id: u128|
            m.contains_key(id) ==> (waiting(m, now).contains_key(id) <==> (
            #[trigger] m[id]).execution_time > now),
        forall|id: u128|
            #![trigger m[id]]
            m.contains_key(id) && !waiting(m, now).contains_key(id) ==> exists|i: int|
                0 <= i < batch.len() && #[trigger] batch[i] == m[id],
        forall|i: int, id: u128|
            0 <= i < batch.len() && waiting(m, now).contains_key(id) ==> ranks_before(
                #[trigger] batch[i],
                #[trigger] m[id],
            ) && !ranks_before(m[id], batch[i]),
{
    lemma_listing_is_complete(batch, due(m, now));
    assert forall|i: int| 0 <= i < batch.len() implies holds(m, #[trigger] batch[i])
        && batch[i].execution_time <= now by {
        assert(holds(due(m, now), batch[i]));
    }
    assert forall|id: u128|
        #![trigger m[id]]
        m.contains_key(id) && !waiting(m, now).contains_key(id) implies exists|i: int|
        0 <= i < batch.len() && #[trigger] batch[i] == m[id] by {
        assert(due(m, now).contains_key(id));
    }
    assert forall|i: int, id: u128|
        0 <= i < batch.len() && waiting(m, now).contains_key(id) implies ranks_before(
        #[trigger] batch[i],
        #[trigger] m[id],
    ) && !ranks_before(m[id], batch[i]) by {
        assert(holds(due(m, now), batch[i]));
    }
}

/// Snapshots follow the changes of the store. Where a job with a new
/// identifier was put in, the snapshot is the one before with that job at its
/// place. Where a held job was taken out, the snapshot is the one before
/// without that job. Where a batch of due jobs was taken out, the snapshot
/// lists the jobs that are left, as many as were held less those of the batch.
pub proof fn lemma_snapshot_follows_changes(
    m: Jobs,
    job: JobView,
    batch: Seq<JobView>,
    now: int,
)
    requires
        well_formed(m),
    ensures
        !m.contains_key(job.id) ==> snapshot_of(m.insert(job.id, job)) == snapshot_of(m).insert(
            place_of(snapshot_of(m), job),
            job,
        ),
        holds(m, job) ==> exists|at: int|
            0 <= at < snapshot_of(m).len() && #[trigger] snapshot_of(m)[at] == job && snapshot_of(
                m.remove(job.id),
            ) == snapshot_of(m).remove(at),
        lists(batch, due(m, now)) ==> is_snapshot(snapshot_of(waiting(m, now)), waiting(m, now))
            && snapshot_of(waiting(m, now)).len() == snapshot_of(m).len() - batch.len(),
{
    lemma_snapshot_exists(m);
    let s = snapshot_of(m);
    if !m.contains_key(job.id) {
        lemma_snapshot_with(s, m, job);
        lemma_snapshot_is_snapshot_of(s.insert(place_of(s, job), job), m.insert(job.id, job));
    }
    if holds(m, job) {
        lemma_listing_is_complete(s, m);
        let at = choose|at: int| 0 <= at < s.len() && #[trigger] s[at] == m[job.id];
        lemma_snapshot_without(s, m, at);
        lemma_snapshot_is_snapshot_of(s.remove(at), m.remove(job.id));
    }
    if lists(batch, due(m, now)) {
        let left = waiting(m, now);
        vstd::set_lib::lemma_len_subset(left.dom(), m.dom());
        lemma_snapshot_exists(left);
        assert(due(m, now).dom().disjoint(left.dom()));
        assert(due(m, now).dom() + left.dom() =~= m.dom());
        vstd::set_lib::lemma_set_disjoint_lens(due(m, now).dom(), left.dom());
    }
}

/// Once the job with identifier `id` was taken out of `held`, it cannot
/// come out again: neither as the job served first, nor in a batch of due
/// jobs, and it is still not held after another job was taken out or after
/// the due jobs were.
pub proof fn lemma_removed_stays_out(held: Jobs, id: u128, now: int)
    ensures
        ({
            let m = held.remove(id);
            &&& forall|j: JobView| #[trigger] is_first(m, j) ==> j.id != id
            &&& forall|batch: Seq<JobView>, i: int|
                lists(batch, due(m, now)) && 0 <= i < batch.len() ==> (#[trigger] batch[i]).id
                    != id
            &&& forall|other: u128| !(#[trigger] m.remove(other)).contains_key(id)
            &&& !waiting(m, now).contains_key(id)
        }),
{
    let m = held.remove(id);
    assert forall|batch: Seq<JobView>, i: int|
        lists(batch, due(m, now)) && 0 <= i < batch.len() implies (#[trigger] batch[i]).id
        != id by {
        assert(holds(due(m, now), batch[i]));
    }
}

/// Whether `a` is listed before `b`.
pub fn comes_before(a: &Job, b: &Job) -> (r: bool)
    ensures
        r == listed_before(a@, b@),
{
    a.execution_time < b.execution_time || (a.execution_time == b.execution_time && (a.priority
        > b.priority || (a.priority == b.priority && a.id < b.id)))
}

/// Puts `job` at its place in a vector that is in listing order, and says
/// where that is.
pub fn insert_listed(out: &mut Vec<Job>, job: Job) -> (at: usize)
    requires
        in_listing_order(views(old(out)@)),
        forall|i: int| 0 <= i < old(out)@.len() ==> (#[trigger] old(out)@[i]).id != job.id,
    ensures
        at <= old(out)@.len(),
        final(out)@ == old(out)@.insert(at as int, job),
        in_listing_order(views(final(out)@)),
{
    let ghost before = views(out@);
    let mut lo: usize = 0;
    let mut hi: usize = out.len();
    while lo < hi
        invariant
            lo <= hi <= out@.len(),
            out@ == old(out)@,
            before == views(out@),
            in_listing_order(before),
            forall|i: int| 0 <= i < out@.len() ==> (#[trigger] out@[i]).id != job.id,
            forall|i: int| 0 <= i < lo ==> listed_before(#[trigger] before[i], job@),
            forall|i: int| hi <= i < before.len() ==> listed_before(job@, #[trigger] before[i]),
        decreases hi - lo,
    {
        let mid = lo + (hi - lo) / 2;
        if comes_before(&out[mid], &job) {
            assert forall|i: int| 0 <= i < mid + 1 implies listed_before(
                #[trigger] before[i],
                job@,
            ) by {
                if i < mid {
                    assert(listed_before(before[i], before[mid as int]));
                }
            }
            lo = mid + 1;
        } else {
            assert forall|i: int| mid <= i < before.len() implies listed_before(
                job@,
                #[trigger] before[i],
            ) by {
                assert(out@[mid as int].id != job.id);
                assert(before[mid as int] == out@[mid as int]@);
                if i > mid {
                    assert(listed_before(before[mid as int], before[i]));
                }
            }
            hi = mid;
        }
    }
    out.insert(lo, job);
    proof {
        let after = views(out@);
        assert(after =~= before.insert(lo as int, job@));
        assert forall|i: int, j: int| 0 <= i < j < after.len() implies listed_before(
            #[trigger] after[i],
            #[trigger] after[j],
        ) by {
            if j < lo {
                assert(listed_before(before[i], before[j]));
            } else if j == lo {
                assert(listed_before(before[i], job@));
            } else if i < lo {
                assert(listed_before(before[i], before[j - 1]));
            } else if i == lo {
                assert(listed_before(job@, before[j - 1]));
            } else {
                assert(listed_before(before[i - 1], before[j - 1]));
            }
        }
    }
    lo
}

} // verus!
