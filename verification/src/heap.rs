//! The ready-ordered index of the store: identifiers ranked by due time and
//! priority, kept in a `priority_queue::PriorityQueue`.

use priority_queue::PriorityQueue;
use std::cmp::Reverse;
use vstd::prelude::*;

verus! {

/// `priority_queue::PriorityQueue`, as an opaque type: what one holds is
/// spoken of through [`heap_entries`] only.
#[verifier::external_type_specification]
#[verifier::external_body]
#[verifier::reject_recursive_types(I)]
#[verifier::reject_recursive_types(P)]
#[verifier::reject_recursive_types(H)]
pub struct ExPriorityQueue<I, P, H>(PriorityQueue<I, P, H>);

/// `std::cmp::Reverse`, as an opaque type: it occurs in the type of the heap
/// and nowhere in the contracts.
#[verifier::external_type_specification]
#[verifier::external_body]
#[verifier::reject_recursive_types(T)]
pub struct ExReverse<T>(Reverse<T>);

/// Identifiers ranked by `(Reverse(due time), priority)`: the greatest rank is
/// the earliest due time and, at equal times, the highest priority.
pub type DueHeap = PriorityQueue<u128, (Reverse<i64>, u8)>;

/// Due time and priority by identifier.
pub type Ranks = Map<u128, (i64, u8)>;

/// What a heap holds: for each identifier in it, the due time and the priority
/// it was last pushed with.
pub uninterp spec fn heap_entries(heap: DueHeap) -> Ranks;

/// `a` is served no later than `b`: it is due earlier, or due at the same time
/// with at least `b`'s priority.
pub open spec fn served_first(a: (i64, u8), b: (i64, u8)) -> bool {
    a.0 < b.0 || (a.0 == b.0 && a.1 >= b.1)
}

/// `id` is held with rank `rank`, and nothing held is served strictly before it.
pub open spec fn is_top(entries: Ranks, id: u128, rank: (i64, u8)) -> bool {
    &&& entries.contains_key(id)
    &&& entries[id] == rank
    &&& forall|other: u128|
        entries.contains_key(other) ==> served_first(rank, #[trigger] entries[other])
}

/// `PriorityQueue::new`: a queue that holds nothing.
#[verifier::external_body]
pub(crate) fn heap_new() -> (heap: DueHeap)
    ensures
        heap_entries(heap) == Ranks::empty(),
{
    PriorityQueue::new()
}

/// `PriorityQueue::len`: the number of identifiers held.
#[verifier::external_body]
pub(crate) fn heap_len(heap: &DueHeap) -> (n: usize)
    ensures
        n == heap_entries(*heap).len(),
{
    heap.len()
}

/// `PriorityQueue::push` with the priority `(Reverse(time), priority)`: the
/// identifier is held with the new rank afterwards, whether or not it was held
/// before, and the rank it had before is returned.
#[verifier::external_body]
pub(crate) fn heap_push(
    heap: &mut DueHeap,
    id: u128,
    time: i64,
    priority: u8,
) -> (previous: Option<(i64, u8)>)
    ensures
        heap_entries(*final(heap)) == heap_entries(*old(heap)).insert(id, (time, priority)),
        previous == if heap_entries(*old(heap)).contains_key(id) {
            Some(heap_entries(*old(heap))[id])
        } else {
            None
        },
{
    match heap.push(id, (Reverse(time), priority)) {
        Some((Reverse(t), p)) => Some((t, p)),
        None => None,
    }
}

/// `PriorityQueue::is_empty`: whether nothing is held.
#[verifier::external_body]
pub(crate) fn heap_is_empty(heap: &DueHeap) -> (empty: bool)
    ensures
        empty == (heap_entries(*heap).len() == 0),
{
    heap.is_empty()
}

/// `PriorityQueue::peek`: the identifier of greatest rank with its due time
/// and priority, or `None` when nothing is held. Which of several identifiers
/// of equal rank is shown is left open.
#[verifier::external_body]
pub(crate) fn heap_peek(heap: &DueHeap) -> (top: Option<(u128, i64, u8)>)
    ensures
        match top {
            Some((id, time, priority)) => is_top(heap_entries(*heap), id, (time, priority)),
            None => heap_entries(*heap) == Ranks::empty(),
        },
{
    match heap.peek() {
        Some((id, (Reverse(time), priority))) => Some((*id, *time, *priority)),
        None => None,
    }
}

/// `PriorityQueue::pop`: takes out the identifier of greatest rank and returns
/// it with its due time and priority; `None`, and nothing changed, when
/// nothing is held. Which of several identifiers of equal rank leaves is left
/// open.
#[verifier::external_body]
pub(crate) fn heap_pop(heap: &mut DueHeap) -> (top: Option<(u128, i64, u8)>)
    ensures
        match top {
            Some((id, time, priority)) => {
                &&& is_top(heap_entries(*old(heap)), id, (time, priority))
                &&& heap_entries(*final(heap)) == heap_entries(*old(heap)).remove(id)
            },
            None => {
                &&& heap_entries(*old(heap)) == Ranks::empty()
                &&& heap_entries(*final(heap)) == heap_entries(*old(heap))
            },
        },
{
    match heap.pop() {
        Some((id, (Reverse(time), priority))) => Some((id, time, priority)),
        None => None,
    }
}

/// `PriorityQueue::remove`: takes the identifier out wherever it stands and
/// returns the rank it had; `None`, and nothing changed, when it is not held.
#[verifier::external_body]
pub(crate) fn heap_remove(heap: &mut DueHeap, id: u128) -> (rank: Option<(i64, u8)>)
    ensures
        heap_entries(*final(heap)) == heap_entries(*old(heap)).remove(id),
        rank == if heap_entries(*old(heap)).contains_key(id) {
            Some(heap_entries(*old(heap))[id])
        } else {
            None
        },
{
    match heap.remove(&id) {
        Some((_, (Reverse(time), priority))) => Some((time, priority)),
        None => None,
    }
}

} // verus!
