//! The priority queue that holds one side of a book: identifiers of resting
//! orders, each under a priority of four integers. The queue is
//! `priority_queue::PriorityQueue`; what it holds is known here as a map
//! from identifier to priority.

use vstd::prelude::*;
use priority_queue::PriorityQueue;
use std::hash::Hash;

verus! {

/// A priority: four integers, ordered from the first to the last as tuples
/// are.
pub type Priority = (i128, i128, i128, i128);

/// `priority_queue::PriorityQueue`, of which nothing is known here but
/// what the functions below say.
#[verifier::external_type_specification]
#[verifier::external_body]
#[verifier::reject_recursive_types(I)]
#[verifier::reject_recursive_types(P)]
#[verifier::reject_recursive_types(H)]
pub struct ExPriorityQueue<I: Hash + Eq, P: Ord, H>(PriorityQueue<I, P, H>);

/// What the queue holds: each identifier in it, with its priority.
pub uninterp spec fn queue_entries(q: PriorityQueue<u128, Priority>) -> Map<u128, Priority>;

/// The contents of an empty queue.
pub open spec fn no_entries() -> Map<u128, Priority> {
    Map::empty()
}

/// `a` comes no later than `b` in the order of tuples.
pub open spec fn priority_le(a: Priority, b: Priority) -> bool {
    ||| a.0 < b.0
    ||| (a.0 == b.0 && a.1 < b.1)
    ||| (a.0 == b.0 && a.1 == b.1 && a.2 < b.2)
    ||| (a.0 == b.0 && a.1 == b.1 && a.2 == b.2 && a.3 <= b.3)
}

/// `p` is the priority of `id` in `entries`, and no entry has a greater one.
pub open spec fn is_greatest(entries: Map<u128, Priority>, id: u128, p: Priority) -> bool {
    &&& entries.contains_key(id)
    &&& entries[id] == p
    &&& forall|k: u128| #[trigger] entries.contains_key(k) ==> priority_le(entries[k], p)
}

/// Calls `PriorityQueue::new`: the queue holds nothing.
#[verifier::external_body]
pub(crate) fn queue_new() -> (q: PriorityQueue<u128, Priority>)
    ensures
        queue_entries(q) == no_entries(),
{
    PriorityQueue::new()
}

/// Calls `PriorityQueue::push`: the identifier is in the queue under the
/// new priority, the other entries are as before, and the result is the
/// priority that the identifier had, if it was in the queue.
#[verifier::external_body]
pub(crate) fn queue_push(q: &mut PriorityQueue<u128, Priority>, id: u128, p: Priority) -> (r:
    Option<Priority>)
    ensures
        queue_entries(*final(q)) == queue_entries(*old(q)).insert(id, p),
        r == (if queue_entries(*old(q)).contains_key(id) {
            Some(queue_entries(*old(q))[id])
        } else {
            None
        }),
{
    q.push(id, p)
}

/// Calls `PriorityQueue::peek`: nothing where the queue is empty, else an
/// entry of the greatest priority. Which one, where several share it, is
/// not said.
#[verifier::external_body]
pub(crate) fn queue_peek(q: &PriorityQueue<u128, Priority>) -> (r: Option<(u128, Priority)>)
    ensures
        r is None ==> queue_entries(*q) == no_entries(),
        r matches Some(e) ==> is_greatest(queue_entries(*q), e.0, e.1),
{
    q.peek().map(|e| (*e.0, *e.1))
}

/// Calls `PriorityQueue::remove`: the identifier has left the queue, the
/// other entries are as before, and the result is the entry that it had,
/// if it was in the queue.
#[verifier::external_body]
pub(crate) fn queue_remove(q: &mut PriorityQueue<u128, Priority>, id: u128) -> (r: Option<
    (u128, Priority),
>)
    ensures
        queue_entries(*final(q)) == queue_entries(*old(q)).remove(id),
        r == (if queue_entries(*old(q)).contains_key(id) {
            Some((id, queue_entries(*old(q))[id]))
        } else {
            None
        }),
{
    q.remove(&id)
}

} // verus!
