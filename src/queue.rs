use crate::frame::{Frame, Header};
use crossbeam_queue::ArrayQueue;
use vstd::prelude::*;

verus! {

#[verifier::external_type_specification]
#[verifier::external_body]
#[verifier::reject_recursive_types(T)]
pub struct ExArrayQueue<T>(ArrayQueue<T>);

/// The frames in a queue, oldest first.
pub uninterp spec fn queued(q: ArrayQueue<Frame>) -> Seq<Frame>;

/// The capacity a queue was made with.
pub uninterp spec fn queue_capacity(q: ArrayQueue<Frame>) -> nat;

/// Capacity of the frame queues.
pub const QUEUE_CAPACITY: usize = 20;

/// The frames of a queue seen as header and data.
pub open spec fn queued_views(q: ArrayQueue<Frame>) -> Seq<(Header, Seq<u8>)> {
    queued(q).map_values(|f: Frame| f@)
}

/// `s` after a push that evicts the oldest element when `cap` are held.
pub open spec fn bounded_push<T>(s: Seq<T>, cap: nat, x: T) -> Seq<T> {
    if s.len() < cap {
        s.push(x)
    } else {
        s.drop_first().push(x)
    }
}

/// Relies on crossbeam_queue::ArrayQueue::new: an empty queue of the given
/// capacity; it panics on capacity 0.
#[verifier::external_body]
pub(crate) fn new_queue(cap: usize) -> (r: ArrayQueue<Frame>)
    requires
        cap > 0,
    ensures
        queued(r) == Seq::<Frame>::empty(),
        queue_capacity(r) == cap,
{
    ArrayQueue::new(cap)
}

/// Relies on crossbeam_queue::ArrayQueue::force_push: appends, replacing the
/// oldest element when the queue is full.
#[verifier::external_body]
pub(crate) fn force_push(q: &mut ArrayQueue<Frame>, f: Frame)
    requires
        queued(*old(q)).len() <= queue_capacity(*old(q)),
    ensures
        queued(*final(q)) == bounded_push(queued(*old(q)), queue_capacity(*old(q)), f),
        queue_capacity(*final(q)) == queue_capacity(*old(q)),
{
    q.force_push(f);
}

/// Relies on crossbeam_queue::ArrayQueue::pop: removes and returns the oldest
/// element, `None` when empty.
#[verifier::external_body]
pub(crate) fn pop(q: &mut ArrayQueue<Frame>) -> (r: Option<Frame>)
    ensures
        queued(*old(q)).len() == 0 ==> r is None && queued(*final(q)) == queued(*old(q)),
        queued(*old(q)).len() > 0 ==> r == Some(queued(*old(q))[0]) && queued(*final(q)) == queued(*old(q)).drop_first(),
        queue_capacity(*final(q)) == queue_capacity(*old(q)),
{
    q.pop()
}

/// Pushing keeps a queue within its capacity.
pub proof fn lemma_bounded_push_len<T>(s: Seq<T>, cap: nat, x: T)
    requires
        s.len() <= cap,
        cap > 0,
    ensures
        bounded_push(s, cap, x).len() <= cap,
        bounded_push(s, cap, x).last() == x,
{
}

} // verus!
