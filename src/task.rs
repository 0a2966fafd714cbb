use vstd::prelude::*;

use crate::scheduler::TaskWaker;

verus! {

/// Identity of a unit of work. Identities handed out by one `IdCounter` are
/// strictly increasing.
#[derive(Debug, Clone, Copy, PartialEq, Eq, Structural, PartialOrd, Ord, Hash)]
pub struct TaskId(u64);

impl View for TaskId {
    type V = u64;

    closed spec fn view(&self) -> u64 {
        self.0
    }
}

impl TaskId {
    /// Takes the next identity from `counter` and advances it.
    pub fn new(counter: &mut IdCounter) -> (r: TaskId)
        requires
            old(counter)@ < u64::MAX,
        ensures
            issued(*old(counter), *final(counter), r),
    {
        let id = TaskId(counter.next);
        counter.next = counter.next + 1;
        id
    }

    /// The identity whose raw value is `raw`, as read back from a queue.
    pub(crate) fn from_raw(raw: u64) -> (r: TaskId)
        ensures
            r@ == raw,
    {
        TaskId(raw)
    }

    /// The raw value of this identity.
    pub fn as_u64(&self) -> (r: u64)
        ensures
            r == self@,
    {
        self.0
    }
}

/// The source of task identities: starts at zero and only ever grows.
#[derive(Debug)]
pub struct IdCounter {
    next: u64,
}

impl View for IdCounter {
    type V = u64;

    closed spec fn view(&self) -> u64 {
        self.next
    }
}

impl IdCounter {
    pub fn new() -> (r: IdCounter)
        ensures
            r@ == 0,
    {
        IdCounter { next: 0 }
    }
}

/// `id` was handed out by a counter that went from `before` to `after`.
pub open spec fn issued(before: IdCounter, after: IdCounter, id: TaskId) -> bool {
    &&& id@ == before@
    &&& after@ == before@ + 1
}

/// Identities handed out by successive calls on one counter are pairwise
/// distinct and strictly increasing in the order of the calls.
pub proof fn lemma_issued_ids_increase(counters: Seq<IdCounter>, ids: Seq<TaskId>)
    requires
        counters.len() == ids.len() + 1,
        forall|k: int| 0 <= k < ids.len() ==> issued(#[trigger] counters[k], counters[k + 1], ids[k]),
    ensures
        forall|i: int, j: int| 0 <= i < j < ids.len() ==> ids[i]@ < ids[j]@,
{
    assert forall|k: int| 0 <= k < ids.len() implies #[trigger] ids[k]@ == counters[0]@ + k by {
        lemma_issued_offset(counters, ids, k);
    }
    assert forall|i: int, j: int| 0 <= i < j < ids.len() implies ids[i]@ < ids[j]@ by {
        assert(ids[i]@ == counters[0]@ + i);
        assert(ids[j]@ == counters[0]@ + j);
    }
}

/// Every identity a counter handed out earlier lies below it. The identity
/// it hands out next is larger than each of them, so distinct from all, and
/// the counter afterwards lies above them all and above the new one. Plain
/// and priority-tagged units draw from the same counter alike.
pub proof fn lemma_issued_id_is_fresh(
    earlier: Set<TaskId>,
    before: IdCounter,
    after: IdCounter,
    id: TaskId,
)
    requires
        issued(before, after, id),
        forall|e: TaskId| #[trigger] earlier.contains(e) ==> e@ < before@,
    ensures
        forall|e: TaskId| #[trigger] earlier.contains(e) ==> e@ < id@ && e != id,
        forall|e: TaskId| #[trigger] earlier.insert(id).contains(e) ==> e@ < after@,
{
}

proof fn lemma_issued_offset(counters: Seq<IdCounter>, ids: Seq<TaskId>, k: int)
    requires
        counters.len() == ids.len() + 1,
        forall|m: int| 0 <= m < ids.len() ==> issued(#[trigger] counters[m], counters[m + 1], ids[m]),
        0 <= k < ids.len(),
    ensures
        ids[k]@ == counters[0]@ + k,
        counters[k]@ == counters[0]@ + k,
    decreases k,
{
    assert(issued(counters[k], counters[k + 1], ids[k]));
    if k > 0 {
        lemma_issued_offset(counters, ids, k - 1);
        assert(issued(counters[k - 1], counters[k], ids[k - 1]));
    }
}

} // verus!

verus! {

/// Outcome of one poll of a computation.
#[derive(Debug, Clone, Copy, PartialEq, Eq, Structural)]
pub enum Poll {
    /// The computation has finished; it must not be polled again.
    Ready,
    /// The computation is suspended.
    Pending,
}

/// What a computation sees while it is polled: the wake handle of its task,
/// and how many times it asked, during this poll, to be queued again. Each
/// request becomes one entry of the ready queue: duplicates are kept.
#[derive(Debug)]
pub struct Context {
    waker: TaskWaker,
    wakes: u64,
}

impl Context {
    pub closed spec fn spec_waker(&self) -> TaskWaker {
        self.waker
    }

    /// How many times the computation asked to be queued again.
    pub closed spec fn spec_wakes(&self) -> nat {
        self.wakes as nat
    }

    /// A context for one poll of the task that `waker` belongs to.
    pub fn from_waker(waker: TaskWaker) -> (r: Context)
        ensures
            r.spec_waker() == waker,
            r.spec_wakes() == 0,
    {
        Context { waker, wakes: 0 }
    }

    pub fn waker(&self) -> (r: &TaskWaker)
        ensures
            *r == self.spec_waker(),
    {
        &self.waker
    }

    /// Asks for the task to be queued again once this poll returns. The count
    /// stops at `u64::MAX`.
    pub fn wake_by_ref(&mut self)
        ensures
            final(self).spec_waker() == old(self).spec_waker(),
            final(self).spec_wakes() == if old(self).spec_wakes() < u64::MAX {
                old(self).spec_wakes() + 1
            } else {
                old(self).spec_wakes()
            },
    {
        if self.wakes < u64::MAX {
            self.wakes = self.wakes + 1;
        }
    }

    pub fn wakes(&self) -> (r: u64)
        ensures
            r == self.spec_wakes(),
    {
        self.wakes
    }
}

/// A suspendable computation with no result, advanced one step per poll.
/// Each poll gets a fresh context.
pub trait Computation: Sized {
    /// `after` is this computation after one poll that returned `r` and asked
    /// `wakes` times to be queued again. A computation that states nothing of
    /// its polls keeps the default, which admits every outcome.
    open spec fn polled(&self, after: &Self, wakes: nat, r: Poll) -> bool {
        true
    }

    fn poll(&mut self, cx: &mut Context) -> (r: Poll)
        requires
            old(cx).spec_wakes() == 0,
        ensures
            final(cx).spec_waker() == old(cx).spec_waker(),
            old(self).polled(final(self), final(cx).spec_wakes(), r),
    ;
}

/// A unit of work as a scheduler sees it: an identity that polling never
/// changes, and a poll.
pub trait TaskFuture: Sized {
    spec fn task_id(&self) -> TaskId;

    /// `after` is this unit after one poll that returned `r` and asked
    /// `wakes` times to be queued again.
    spec fn polled(&self, after: &Self, wakes: nat, r: Poll) -> bool;

    fn id(&self) -> (r: TaskId)
        ensures
            r == self.task_id(),
    ;

    fn poll(&mut self, cx: &mut Context) -> (r: Poll)
        requires
            old(cx).spec_wakes() == 0,
        ensures
            final(self).task_id() == old(self).task_id(),
            final(cx).spec_waker() == old(cx).spec_waker(),
            old(self).polled(final(self), final(cx).spec_wakes(), r),
    ;
}

/// One computation together with the identity it was given at construction.
pub struct Task<F: Computation> {
    id: TaskId,
    future: F,
}

impl<F: Computation> Task<F> {
    /// The computation the task owns.
    pub closed spec fn computation(&self) -> F {
        self.future
    }

    /// Wraps `future` under a fresh identity taken from `counter`.
    pub fn new(counter: &mut IdCounter, future: F) -> (r: Task<F>)
        requires
            old(counter)@ < u64::MAX,
        ensures
            issued(*old(counter), *final(counter), r.task_id()),
            r.computation() == future,
    {
        Task { id: TaskId::new(counter), future }
    }
}

impl<F: Computation> TaskFuture for Task<F> {
    closed spec fn task_id(&self) -> TaskId {
        self.id
    }

    /// A poll of the task is a poll of its computation, with the same
    /// context; the identity stays.
    open spec fn polled(&self, after: &Self, wakes: nat, r: Poll) -> bool {
        &&& after.task_id() == self.task_id()
        &&& self.computation().polled(&after.computation(), wakes, r)
    }

    fn id(&self) -> (r: TaskId) {
        self.id
    }

    fn poll(&mut self, cx: &mut Context) -> (r: Poll) {
        self.future.poll(cx)
    }
}

/// Scheduling band of a task: `High` is served before `Medium`, and `Medium`
/// before `Low`.
#[derive(Debug, Clone, Copy, PartialEq, Eq, Structural, PartialOrd, Ord, Hash)]
pub enum Priority {
    Low,
    Medium,
    High,
}

/// A unit of work with a fixed priority.
pub struct PriorityTask<F: Computation> {
    priority: Priority,
    inner: Task<F>,
}

impl<F: Computation> PriorityTask<F> {
    pub closed spec fn spec_priority(&self) -> Priority {
        self.priority
    }

    /// The computation the task owns.
    pub closed spec fn computation(&self) -> F {
        self.inner.future
    }

    /// Wraps `future` under a fresh identity taken from `counter`, in band
    /// `priority`.
    pub fn new(counter: &mut IdCounter, priority: Priority, future: F) -> (r: PriorityTask<F>)
        requires
            old(counter)@ < u64::MAX,
        ensures
            issued(*old(counter), *final(counter), r.task_id()),
            r.spec_priority() == priority,
            r.computation() == future,
    {
        PriorityTask { priority, inner: Task::new(counter, future) }
    }

    pub fn priority(&self) -> (r: Priority)
        ensures
            r == self.spec_priority(),
    {
        self.priority
    }
}

impl<F: Computation> TaskFuture for PriorityTask<F> {
    closed spec fn task_id(&self) -> TaskId {
        self.inner.id
    }

    /// A poll of the task is a poll of its computation, with the same
    /// context; the identity and the priority stay.
    open spec fn polled(&self, after: &Self, wakes: nat, r: Poll) -> bool {
        &&& after.task_id() == self.task_id()
        &&& after.spec_priority() == self.spec_priority()
        &&& self.computation().polled(&after.computation(), wakes, r)
    }

    fn id(&self) -> (r: TaskId) {
        self.inner.id
    }

    fn poll(&mut self, cx: &mut Context) -> (r: Poll) {
        self.inner.future.poll(cx)
    }
}

} // verus!
