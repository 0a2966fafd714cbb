use crossbeam_queue::ArrayQueue;
use vstd::prelude::*;

use crate::task::TaskId;

verus! {

#[verifier::external_type_specification]
#[verifier::external_body]
#[verifier::reject_recursive_types(T)]
pub struct ExArrayQueue<T>(ArrayQueue<T>);

/// The values held by a bounded queue, oldest first.
pub uninterp spec fn queued_values(q: ArrayQueue<u64>) -> Seq<u64>;

/// The capacity that a bounded queue was created with.
pub uninterp spec fn queue_capacity(q: ArrayQueue<u64>) -> nat;

/// Relies on `ArrayQueue::new`: a new queue is empty and holds at most `cap`
/// values. It panics on a zero capacity and when `cap + 1` has no power of two
/// above it in `usize`, both excluded here.
#[verifier::external_body]
fn array_queue_new(cap: usize) -> (q: ArrayQueue<u64>)
    requires
        0 < cap <= usize::MAX / 2,
    ensures
        queued_values(q) == Seq::<u64>::empty(),
        queue_capacity(q) == cap as nat,
{
    ArrayQueue::new(cap)
}

/// Relies on `ArrayQueue::push_mut`: appends at the tail, or hands the value
/// back when the queue already holds its capacity.
#[verifier::external_body]
fn array_queue_push(q: &mut ArrayQueue<u64>, value: u64) -> (r: Result<(), u64>)
    ensures
        queue_capacity(*final(q)) == queue_capacity(*old(q)),
        queued_values(*old(q)).len() < queue_capacity(*old(q)) ==> {
            &&& r is Ok
            &&& queued_values(*final(q)) == queued_values(*old(q)).push(value)
        },
        queued_values(*old(q)).len() >= queue_capacity(*old(q)) ==> {
            &&& r == Err::<(), u64>(value)
            &&& queued_values(*final(q)) == queued_values(*old(q))
        },
{
    q.push_mut(value)
}

/// Relies on `ArrayQueue::pop_mut`: removes the value at the head, or gives
/// `None` on an empty queue.
#[verifier::external_body]
fn array_queue_pop(q: &mut ArrayQueue<u64>) -> (r: Option<u64>)
    ensures
        queue_capacity(*final(q)) == queue_capacity(*old(q)),
        queued_values(*old(q)).len() == 0 ==> {
            &&& r is None
            &&& queued_values(*final(q)) == queued_values(*old(q))
        },
        queued_values(*old(q)).len() > 0 ==> {
            &&& r == Some(queued_values(*old(q))[0])
            &&& queued_values(*final(q)) == queued_values(*old(q)).drop_first()
        },
{
    q.pop_mut()
}

/// Relies on `ArrayQueue::is_empty`: whether the queue holds no value.
#[verifier::external_body]
fn array_queue_is_empty(q: &ArrayQueue<u64>) -> (r: bool)
    ensures
        r == (queued_values(*q).len() == 0),
{
    q.is_empty()
}

/// A bounded FIFO queue of task identities waiting for a poll.
pub struct ReadyQueue {
    inner: ArrayQueue<u64>,
}

impl ReadyQueue {
    /// The identities in the queue, oldest first.
    pub closed spec fn ids(&self) -> Seq<u64> {
        queued_values(self.inner)
    }

    /// How many identities the queue can hold.
    pub closed spec fn capacity(&self) -> nat {
        queue_capacity(self.inner)
    }

    pub open spec fn is_full(&self) -> bool {
        self.ids().len() >= self.capacity()
    }

    pub fn new(capacity: usize) -> (r: ReadyQueue)
        requires
            0 < capacity <= usize::MAX / 2,
        ensures
            r.ids() == Seq::<u64>::empty(),
            r.capacity() == capacity as nat,
    {
        ReadyQueue { inner: array_queue_new(capacity) }
    }

    /// Appends `id` at the tail; a full queue is left as it was.
    pub fn push(&mut self, id: TaskId) -> (r: Result<(), TaskId>)
        ensures
            final(self).capacity() == old(self).capacity(),
            !old(self).is_full() ==> {
                &&& r is Ok
                &&& final(self).ids() == old(self).ids().push(id@)
            },
            old(self).is_full() ==> {
                &&& r == Err::<(), TaskId>(id)
                &&& final(self).ids() == old(self).ids()
            },
    {
        match array_queue_push(&mut self.inner, id.as_u64()) {
            Ok(()) => Ok(()),
            Err(_) => Err(id),
        }
    }

    /// Removes the identity at the head, if any.
    pub fn pop(&mut self) -> (r: Option<TaskId>)
        ensures
            final(self).capacity() == old(self).capacity(),
            old(self).ids().len() == 0 ==> {
                &&& r is None
                &&& final(self).ids() == old(self).ids()
            },
            old(self).ids().len() > 0 ==> {
                &&& r matches Some(id) && id@ == old(self).ids()[0]
                &&& final(self).ids() == old(self).ids().drop_first()
            },
    {
        match array_queue_pop(&mut self.inner) {
            Some(raw) => Some(TaskId::from_raw(raw)),
            None => None,
        }
    }

    pub fn is_empty(&self) -> (r: bool)
        ensures
            r == (self.ids().len() == 0),
    {
        array_queue_is_empty(&self.inner)
    }
}

} // verus!
