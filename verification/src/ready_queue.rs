//! The multi-producer ready queue of task ids, backed by crossbeam's
//! unbounded FIFO queue.
//!
//! The queue itself comes from the outside crate; its contents are named
//! by the uninterpreted [`ready_ids`] and every access goes through one
//! of the thin wrappers below, whose contracts state what crossbeam's
//! source shows: `push` appends at the tail, `pop` removes the head,
//! `len` counts what remains.

use vstd::prelude::*;
use crossbeam::queue::SegQueue;

verus! {

#[verifier::external_type_specification]
#[verifier::external_body]
#[verifier::reject_recursive_types(T)]
pub struct ExSegQueue<T>(SegQueue<T>);

/// The ids held by a ready queue, front first.
pub uninterp spec fn ready_ids(q: SegQueue<u64>) -> Seq<u64>;

/// Relies on crossbeam's `SegQueue::new`: creates an empty queue.
#[verifier::external_body]
pub(crate) fn queue_new() -> (q: SegQueue<u64>)
    ensures
        ready_ids(q) == Seq::<u64>::empty(),
{
    SegQueue::new()
}

/// Relies on crossbeam's `SegQueue::push`: pushes the element to the
/// tail of the FIFO queue.
#[verifier::external_body]
pub(crate) fn queue_push(q: &mut SegQueue<u64>, id: u64)
    ensures
        ready_ids(*final(q)) == ready_ids(*old(q)).push(id),
{
    q.push(id);
}

/// Relies on crossbeam's `SegQueue::pop`: pops the head element, or
/// returns `None` when the queue is empty.
#[verifier::external_body]
pub(crate) fn queue_pop(q: &mut SegQueue<u64>) -> (r: Option<u64>)
    ensures
        match r {
            Some(id) => ready_ids(*old(q)).len() > 0 && id == ready_ids(*old(q))[0]
                && ready_ids(*final(q))
                    == ready_ids(*old(q)).subrange(1, ready_ids(*old(q)).len() as int),
            None => ready_ids(*old(q)).len() == 0 && ready_ids(*final(q)) == ready_ids(*old(q)),
        },
{
    q.pop()
}

/// Relies on crossbeam's `SegQueue::len`: the number of elements in the
/// queue.
#[verifier::external_body]
pub(crate) fn queue_len(q: &SegQueue<u64>) -> (n: usize)
    ensures
        n == ready_ids(*q).len(),
{
    q.len()
}

} // verus!
