//! The bounded FIFO queue that task ids and scancodes travel through:
//! crossbeam's `ArrayQueue`, used with exclusive access.
use crossbeam_queue::ArrayQueue;
use vstd::prelude::*;

verus! {

#[verifier::external_type_specification]
#[verifier::external_body]
#[verifier::reject_recursive_types(T)]
pub struct ExArrayQueue<T>(ArrayQueue<T>);

/// The items in the queue, oldest first.
pub uninterp spec fn queue_items(q: ArrayQueue<u64>) -> Seq<u64>;

/// The number of items the queue was made to hold.
pub uninterp spec fn queue_capacity(q: ArrayQueue<u64>) -> nat;

/// Relies on `ArrayQueue::new`: an empty queue with room for `cap` items;
/// it panics on a zero capacity.
#[verifier::external_body]
pub(crate) fn queue_new(cap: usize) -> (r: ArrayQueue<u64>)
    requires
        cap > 0,
    ensures
        queue_items(r) == Seq::<u64>::empty(),
        queue_capacity(r) == cap,
{
    ArrayQueue::new(cap)
}

/// Relies on `ArrayQueue::push`: with no other user of the queue, the item
/// goes to the back unless the queue is full, in which case it comes back.
#[verifier::external_body]
pub(crate) fn queue_push(q: &mut ArrayQueue<u64>, value: u64) -> (r: Result<(), u64>)
    ensures
        queue_capacity(*final(q)) == queue_capacity(*old(q)),
        queue_items(*old(q)).len() < queue_capacity(*old(q)) ==> r.is_ok()
            && queue_items(*final(q)) == queue_items(*old(q)).push(value),
        queue_items(*old(q)).len() >= queue_capacity(*old(q)) ==> (r matches Err(v) && v == value)
            && queue_items(*final(q)) == queue_items(*old(q)),
{
    q.push(value)
}

/// Relies on `ArrayQueue::pop`: with no other user of the queue, the oldest
/// item comes out, or nothing when the queue is empty.
#[verifier::external_body]
pub(crate) fn queue_pop(q: &mut ArrayQueue<u64>) -> (r: Option<u64>)
    ensures
        queue_capacity(*final(q)) == queue_capacity(*old(q)),
        queue_items(*old(q)).len() > 0 ==> r == Some(queue_items(*old(q))[0])
            && queue_items(*final(q)) == queue_items(*old(q)).drop_first(),
        queue_items(*old(q)).len() == 0 ==> r.is_none() && queue_items(*final(q)) == queue_items(*old(q)),
{
    q.pop()
}

/// Relies on `ArrayQueue::is_empty`.
#[verifier::external_body]
pub(crate) fn queue_is_empty(q: &ArrayQueue<u64>) -> (r: bool)
    ensures
        r == (queue_items(*q).len() == 0),
{
    q.is_empty()
}

/// Relies on `ArrayQueue::len`.
#[verifier::external_body]
pub(crate) fn queue_len(q: &ArrayQueue<u64>) -> (r: usize)
    ensures
        r == queue_items(*q).len(),
{
    q.len()
}

} // verus!
