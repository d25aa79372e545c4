//! Trusted interface to the bounded lock-free byte queue.
//!
//! Both the executor's ready queue and the interrupt-fed scancode queue are
//! bounded FIFO queues of bytes from the `crossbeam_queue` crate. The
//! wrappers here take the queue through an exclusive reference and use the
//! crate's exclusive-access operations, whose behaviour the crate's source
//! shows directly: first-in-first-out, rejecting pushes at capacity.

use vstd::prelude::*;

use crossbeam_queue::ArrayQueue;

verus! {

#[verifier::external_type_specification]
#[verifier::external_body]
#[verifier::reject_recursive_types(T)]
pub struct ExArrayQueue<T>(ArrayQueue<T>);

/// The bytes currently queued, front first.
pub uninterp spec fn queue_contents(q: ArrayQueue<u8>) -> Seq<u8>;

/// The fixed capacity the queue was created with.
pub uninterp spec fn queue_capacity(q: ArrayQueue<u8>) -> nat;

/// Relies on `crossbeam_queue::ArrayQueue::new`: a fresh empty queue with
/// the given capacity. The constructor panics on a zero capacity (and on
/// absurd capacities whose rounded-up size overflows), so those stay out.
#[verifier::external_body]
pub(crate) fn queue_new(cap: usize) -> (q: ArrayQueue<u8>)
    requires
        1 <= cap <= 0x1000_0000,
    ensures
        queue_contents(q) == Seq::<u8>::empty(),
        queue_capacity(q) == cap,
{
    ArrayQueue::new(cap)
}

/// Relies on `crossbeam_queue::ArrayQueue::push_mut`: appends at the back
/// when there is room, hands the value back once the queue holds a full
/// capacity's worth.
#[verifier::external_body]
pub(crate) fn queue_push(q: &mut ArrayQueue<u8>, v: u8) -> (r: Result<(), u8>)
    ensures
        queue_contents(*old(q)).len() < queue_capacity(*old(q)) ==> (r is Ok
            && queue_contents(*final(q)) == queue_contents(*old(q)).push(v)
            && queue_capacity(*final(q)) == queue_capacity(*old(q))),
        queue_contents(*old(q)).len() >= queue_capacity(*old(q)) ==> ((r matches Err(b) && b == v)
            && *final(q) == *old(q)),
{
    q.push_mut(v)
}

/// Relies on `crossbeam_queue::ArrayQueue::pop_mut`: removes and returns
/// the front element, or nothing from an empty queue.
#[verifier::external_body]
pub(crate) fn queue_pop(q: &mut ArrayQueue<u8>) -> (r: Option<u8>)
    ensures
        queue_contents(*old(q)).len() == 0 ==> r is None && *final(q) == *old(q),
        queue_contents(*old(q)).len() > 0 ==> r == Some(queue_contents(*old(q))[0])
            && queue_contents(*final(q)) == queue_contents(*old(q)).subrange(
            1,
            queue_contents(*old(q)).len() as int,
        ) && queue_capacity(*final(q)) == queue_capacity(*old(q)),
{
    q.pop_mut()
}

/// Relies on `crossbeam_queue::ArrayQueue::is_empty`.
#[verifier::external_body]
pub(crate) fn queue_is_empty(q: &ArrayQueue<u8>) -> (r: bool)
    ensures
        r == (queue_contents(*q).len() == 0),
{
    q.is_empty()
}

/// Relies on `crossbeam_queue::ArrayQueue::len`.
#[verifier::external_body]
pub(crate) fn queue_len(q: &ArrayQueue<u8>) -> (r: usize)
    ensures
        r == queue_contents(*q).len(),
{
    q.len()
}

} // verus!
