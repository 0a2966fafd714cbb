use std::collections::BTreeMap;
use vstd::prelude::*;

use super::{pushed, Error, Scheduler, TaskWaker, TASK_QUEUE_CAPACITY};
use crate::queue::ReadyQueue;
use crate::task::{Context, Poll, TaskFuture, TaskId};

verus! {

broadcast use {vstd::std_specs::btree::group_btree_axioms, vstd::laws_cmp::group_laws_cmp};

/// Index of the first entry of `q` that is in `live`, or `q.len()` when there
/// is none.
pub open spec fn first_live(q: Seq<u64>, live: Set<u64>) -> int
    decreases q.len(),
{
    if q.len() == 0 {
        0
    } else if live.contains(q[0]) {
        0
    } else {
        1 + first_live(q.drop_first(), live)
    }
}

pub proof fn lemma_first_live_bounds(q: Seq<u64>, live: Set<u64>)
    ensures
        0 <= first_live(q, live) <= q.len(),
        first_live(q, live) < q.len() ==> live.contains(q[first_live(q, live)]),
        forall|i: int| 0 <= i < first_live(q, live) ==> !live.contains(#[trigger] q[i]),
    decreases q.len(),
{
    if q.len() > 0 && !live.contains(q[0]) {
        lemma_first_live_bounds(q.drop_first(), live);
        assert forall|i: int| 0 <= i < first_live(q, live) implies !live.contains(#[trigger] q[i]) by {
            if i > 0 {
                assert(q[i] == q.drop_first()[i - 1]);
            }
        }
    }
}

proof fn lemma_first_live_skip(q: Seq<u64>, live: Set<u64>, n: int)
    requires
        0 <= n <= q.len(),
        forall|i: int| 0 <= i < n ==> !live.contains(#[trigger] q[i]),
    ensures
        first_live(q, live) == n + first_live(q.skip(n), live),
    decreases n,
{
    if n == 0 {
        assert(q.skip(0) =~= q);
    } else {
        assert(!live.contains(q[0]));
        let rest = q.drop_first();
        assert forall|i: int| 0 <= i < n - 1 implies !live.contains(#[trigger] rest[i]) by {
            assert(rest[i] == q[i + 1]);
        }
        lemma_first_live_skip(rest, live, n - 1);
        assert(rest.skip(n - 1) =~= q.skip(n));
    }
}

/// `n` copies of `id`.
pub open spec fn repeat(id: u64, n: nat) -> Seq<u64> {
    Seq::new(n, |_i: int| id)
}

/// Report of one poll made by a scheduler.
#[derive(Debug, Clone, Copy, PartialEq, Eq, Structural)]
pub struct Polled {
    /// The task that was polled.
    pub id: TaskId,
    /// What the poll returned.
    pub outcome: Poll,
    /// How many times the task asked, during the poll, to be queued again.
    pub wakes: u64,
    /// How many of those requests the ready queue took. Fewer than `wakes`
    /// means the queue was full and a wake was lost.
    pub requeued: u64,
}

/// Runs every runnable task in the order in which it became runnable, with no
/// priority among them.
pub struct RoundRobinScheduler<T: TaskFuture> {
    tasks: BTreeMap<u64, T>,
    task_queue: ReadyQueue,
    waker_cache: BTreeMap<u64, TaskWaker>,
}

impl<T: TaskFuture> RoundRobinScheduler<T> {
    /// The run table, keyed by the raw task identity.
    pub closed spec fn tasks(&self) -> Map<u64, T> {
        self.tasks@
    }

    /// The ready queue.
    pub closed spec fn queue(&self) -> ReadyQueue {
        self.task_queue
    }

    /// The wake handles made so far, keyed by the raw task identity.
    pub closed spec fn wakers(&self) -> Map<u64, TaskWaker> {
        self.waker_cache@
    }

    /// Each task is filed under its own identity; each wake handle belongs to
    /// a task of the table and is filed under that task's identity; the
    /// queue never holds more than its capacity.
    pub open spec fn wf(&self) -> bool {
        &&& forall|k: u64| #[trigger] self.tasks().contains_key(k) ==> self.tasks()[k].task_id()@ == k
        &&& forall|k: u64| #[trigger] self.wakers().contains_key(k) ==> {
            &&& self.tasks().contains_key(k)
            &&& self.wakers()[k].task_id()@ == k
        }
        &&& self.queue().capacity() == TASK_QUEUE_CAPACITY as nat
        &&& self.queue().ids().len() <= self.queue().capacity()
    }

    /// The ready queue is empty.
    pub open spec fn idle(&self) -> bool {
        self.queue().ids().len() == 0
    }

    /// Whether some entry of the ready queue names a task of the table.
    pub open spec fn has_live_entry(&self) -> bool {
        first_live(self.queue().ids(), self.tasks().dom()) < self.queue().ids().len()
    }

    /// `after` is `self` after one `run_next` that reported `r`: stale entries
    /// at the head of the queue are dropped, and the task the first live entry
    /// names is polled once, as its `polled` relation says. Each wake request
    /// it made puts its identity once more at the tail, as far as the queue
    /// has room. The task then leaves the table, with its wake handle, when it
    /// completed; when it is suspended it stays, with the wake handle it had
    /// or a new one.
    pub open spec fn next_step(&self, after: &Self, r: Option<Polled>) -> bool {
        let q = self.queue().ids();
        let k = first_live(q, self.tasks().dom());
        &&& after.queue().capacity() == self.queue().capacity()
        &&& if k == q.len() {
            &&& r is None
            &&& after.queue().ids() == Seq::<u64>::empty()
            &&& after.tasks() == self.tasks()
            &&& after.wakers() == self.wakers()
        } else {
            let id = q[k];
            let rest = q.skip(k + 1);
            let room = self.queue().capacity() - rest.len();
            &&& r matches Some(p) && p.id@ == id
            &&& after.queue().ids() == rest + repeat(id, r->0.requeued as nat)
            &&& r->0.requeued == if r->0.wakes <= room {
                r->0.wakes as int
            } else {
                room
            }
            &&& exists|t: T|
                {
                    &&& #[trigger] self.tasks()[id].polled(&t, r->0.wakes as nat, r->0.outcome)
                    &&& r->0.outcome == Poll::Pending ==> after.tasks() == self.tasks().insert(
                        id,
                        t,
                    )
                }
            &&& r->0.outcome == Poll::Ready ==> {
                &&& after.tasks() == self.tasks().remove(id)
                &&& after.wakers() == self.wakers().remove(id)
            }
            &&& r->0.outcome == Poll::Pending ==> {
                &&& after.wakers() == self.wakers().insert(id, after.wakers()[id])
                &&& self.wakers().contains_key(id) ==> after.wakers()[id] == self.wakers()[id]
            }
        }
    }

    /// `after` is `self` after `spawn(task)` returned `r`: a duplicate
    /// identity or a full queue changes nothing; otherwise the task joins the
    /// table and its identity the tail of the queue.
    pub open spec fn spawn_step(&self, after: &Self, task: T, r: Result<(), Error>) -> bool {
        let id = task.task_id()@;
        &&& after.queue().capacity() == self.queue().capacity()
        &&& if self.tasks().contains_key(id) {
            &&& r == Err::<(), Error>(Error::DuplicateId)
            &&& after.tasks() == self.tasks()
            &&& after.queue().ids() == self.queue().ids()
            &&& after.wakers() == self.wakers()
        } else if self.queue().is_full() {
            &&& r == Err::<(), Error>(Error::TaskQueueFull)
            &&& after.tasks() == self.tasks()
            &&& after.queue().ids() == self.queue().ids()
            &&& after.wakers() == self.wakers()
        } else {
            &&& r is Ok
            &&& after.tasks() == self.tasks().insert(id, task)
            &&& after.queue().ids() == self.queue().ids().push(id)
            &&& after.wakers() == self.wakers()
        }
    }

    /// `after` is `self` after `kill(task_id)` returned `r`: the task and its
    /// wake handle leave the table, or `UnknownId` when it was not there.
    pub open spec fn kill_step(&self, after: &Self, task_id: TaskId, r: Result<(), Error>) -> bool {
        &&& after.queue() == self.queue()
        &&& if self.tasks().contains_key(task_id@) {
            &&& r is Ok
            &&& after.tasks() == self.tasks().remove(task_id@)
            &&& after.wakers() == self.wakers().remove(task_id@)
        } else {
            &&& r == Err::<(), Error>(Error::UnknownId)
            &&& after.tasks() == self.tasks()
            &&& after.wakers() == self.wakers()
        }
    }

    /// `after` is `self` after `wake(task_id)` returned `r`: the identity of a
    /// task of the table is offered to the queue; any other is refused.
    pub open spec fn wake_step(&self, after: &Self, task_id: TaskId, r: Result<(), Error>) -> bool {
        &&& after.tasks() == self.tasks()
        &&& after.wakers() == self.wakers()
        &&& if self.tasks().contains_key(task_id@) {
            pushed(self.queue(), after.queue(), task_id@, r)
        } else {
            &&& r == Err::<(), Error>(Error::UnknownId)
            &&& after.queue() == self.queue()
        }
    }

    /// An empty scheduler: no task, an empty queue of `TASK_QUEUE_CAPACITY`.
    pub fn new() -> (r: Self)
        ensures
            r.wf(),
            r.tasks() == Map::<u64, T>::empty(),
            r.queue().ids() == Seq::<u64>::empty(),
            r.wakers() == Map::<u64, TaskWaker>::empty(),
    {
        RoundRobinScheduler {
            tasks: BTreeMap::new(),
            task_queue: ReadyQueue::new(TASK_QUEUE_CAPACITY),
            waker_cache: BTreeMap::new(),
        }
    }

    /// Drops stale entries from the head of the queue and takes the first one
    /// that names a task of the table.
    fn pop_live(&mut self) -> (r: Option<TaskId>)
        ensures
            final(self).tasks() == old(self).tasks(),
            final(self).wakers() == old(self).wakers(),
            final(self).queue().capacity() == old(self).queue().capacity(),
            ({
                let q = old(self).queue().ids();
                let k = first_live(q, old(self).tasks().dom());
                if k == q.len() {
                    r is None && final(self).queue().ids() == Seq::<u64>::empty()
                } else {
                    r matches Some(id) && id@ == q[k] && final(self).queue().ids() == q.skip(k + 1)
                }
            }),
    {
        let ghost q = self.task_queue.ids();
        let ghost live = self.tasks@.dom();
        let ghost mut n: int = 0;
        proof {
            lemma_first_live_bounds(q, live);
            assert(q.skip(0) =~= q);
        }
        loop
            invariant
                self.tasks@ == old(self).tasks@,
                self.waker_cache@ == old(self).waker_cache@,
                self.task_queue.capacity() == old(self).task_queue.capacity(),
                q == old(self).task_queue.ids(),
                live == old(self).tasks@.dom(),
                0 <= n <= q.len(),
                forall|i: int| 0 <= i < n ==> !live.contains(#[trigger] q[i]),
                self.task_queue.ids() == q.skip(n),
            decreases self.task_queue.ids().len(),
        {
            let popped = self.task_queue.pop();
            match popped {
                None => {
                    proof {
                        lemma_first_live_skip(q, live, n);
                    }
                    return None;
                },
                Some(id) => {
                    proof {
                        assert(q.skip(n)[0] == q[n]);
                        assert(q.skip(n).drop_first() =~= q.skip(n + 1));
                    }
                    if self.tasks.contains_key(&id.as_u64()) {
                        proof {
                            lemma_first_live_skip(q, live, n);
                        }
                        return Some(id);
                    }
                    proof {
                        n = n + 1;
                    }
                },
            }
        }
    }

    /// Puts the identity of `waker`'s task at the tail `wakes` times, or until
    /// the queue is full; returns how many entries went in.
    fn requeue(&mut self, waker: TaskWaker, wakes: u64) -> (r: u64)
        requires
            old(self).queue().ids().len() <= old(self).queue().capacity(),
        ensures
            final(self).tasks() == old(self).tasks(),
            final(self).wakers() == old(self).wakers(),
            final(self).queue().capacity() == old(self).queue().capacity(),
            final(self).queue().ids() == old(self).queue().ids() + repeat(
                waker.task_id()@,
                r as nat,
            ),
            r == if wakes <= old(self).queue().capacity() - old(self).queue().ids().len() {
                wakes as int
            } else {
                old(self).queue().capacity() - old(self).queue().ids().len()
            },
    {
        let ghost base = self.task_queue.ids();
        let ghost id = waker.task_id()@;
        let ghost cap = self.task_queue.capacity();
        let mut requeued: u64 = 0;
        let mut full = false;
        proof {
            assert(base + repeat(id, 0) =~= base);
        }
        while requeued < wakes && !full
            invariant
                self.tasks@ == old(self).tasks@,
                self.waker_cache@ == old(self).waker_cache@,
                self.task_queue.capacity() == cap,
                base == old(self).task_queue.ids(),
                cap == old(self).task_queue.capacity(),
                id == waker.task_id()@,
                requeued <= wakes,
                base.len() + requeued <= cap,
                full ==> base.len() + requeued == cap,
                self.task_queue.ids() == base + repeat(id, requeued as nat),
            decreases (wakes - requeued) * 2 + if full {
                0int
            } else {
                1int
            },
        {
            match waker.wake_by_ref(&mut self.task_queue) {
                Ok(()) => {
                    proof {
                        assert((base + repeat(id, requeued as nat)).push(id) =~= base + repeat(
                            id,
                            (requeued + 1) as nat,
                        ));
                    }
                    requeued = requeued + 1;
                },
                Err(_) => {
                    full = true;
                },
            }
        }
        proof {
            assert(self.tasks() == old(self).tasks());
            assert(self.wakers() == old(self).wakers());
        }
        requeued
    }

    /// One step of draining the ready queue: polls the first queued task that
    /// is still in the table, or reports `None` once the queue holds none.
    pub fn run_next(&mut self) -> (r: Option<Polled>)
        requires
            old(self).wf(),
        ensures
            final(self).wf(),
            old(self).next_step(final(self), r),
    {
        let ghost q = self.task_queue.ids();
        proof {
            lemma_first_live_bounds(q, self.tasks@.dom());
        }
        let popped = self.pop_live();
        let id = match popped {
            None => {
                return None;
            },
            Some(id) => id,
        };
        let key = id.as_u64();
        let removed = self.tasks.remove(&key);
        let mut task = match removed {
            Some(task) => task,
            None => {
                proof {
                    assert(false);
                }
                return None;
            },
        };
        let cached = self.waker_cache.get(&key);
        let waker = match cached {
            Some(w) => {
                proof {
                    assert(self.wakers().contains_key(key));
                }
                *w
            },
            None => {
                let w = TaskWaker::new(id);
                self.waker_cache.insert(key, w);
                w
            },
        };
        let ghost before = task;
        let mut cx = Context::from_waker(waker);
        let outcome = task.poll(&mut cx);
        let wakes = cx.wakes();
        let requeued = self.requeue(waker, wakes);
        let ghost polled = task;
        match outcome {
            Poll::Ready => {
                self.waker_cache.remove(&key);
                proof {
                    assert(self.tasks@ =~= old(self).tasks@.remove(key));
                    assert(self.waker_cache@ =~= old(self).waker_cache@.remove(key));
                }
            },
            Poll::Pending => {
                self.tasks.insert(key, task);
                proof {
                    assert(self.tasks@ =~= old(self).tasks@.insert(key, polled));
                    assert(self.waker_cache@ =~= old(self).waker_cache@.insert(
                        key,
                        self.waker_cache@[key],
                    ));
                }
            },
        }
        let r = Some(Polled { id, outcome, wakes, requeued });
        proof {
            // the witness for the poll relation of `next_step`
            let k = first_live(q, old(self).tasks().dom());
            assert(old(self).tasks()[q[k]] == before);
            assert(old(self).tasks()[q[k]].polled(&polled, r->0.wakes as nat, r->0.outcome));
        }
        r
    }

    /// Adds `task` to the table and queues it. A task whose identity is
    /// already in the table, or a full queue, leaves everything as it was.
    pub fn spawn(&mut self, task: T) -> (r: Result<(), Error>)
        requires
            old(self).wf(),
        ensures
            final(self).wf(),
            old(self).spawn_step(final(self), task, r),
    {
        let task_id = task.id();
        let key = task_id.as_u64();
        if self.tasks.contains_key(&key) {
            return Err(Error::DuplicateId);
        }
        match self.task_queue.push(task_id) {
            Ok(()) => {
                let ghost spawned = task;
                self.tasks.insert(key, task);
                proof {
                    assert(self.tasks() == old(self).tasks().insert(key, spawned));
                    assert(self.wakers() == old(self).wakers());
                    assert forall|k: u64| #[trigger]
                        self.wakers().contains_key(k) implies self.tasks().contains_key(k)
                        && self.wakers()[k].task_id()@ == k by {
                        assert(old(self).wakers().contains_key(k));
                    }
                    assert forall|k: u64| #[trigger]
                        self.tasks().contains_key(k) implies self.tasks()[k].task_id()@ == k by {
                        if k != key {
                            assert(old(self).tasks().contains_key(k));
                        }
                    }
                }
                Ok(())
            },
            Err(_) => {
                proof {
                    assert(self.tasks() == old(self).tasks());
                    assert(self.wakers() == old(self).wakers());
                }
                Err(Error::TaskQueueFull)
            },
        }
    }

    /// Removes the task `task_id` and its wake handle from the table. Entries
    /// for it still in the queue become stale and are dropped when reached.
    pub fn kill(&mut self, task_id: TaskId) -> (r: Result<(), Error>)
        requires
            old(self).wf(),
        ensures
            final(self).wf(),
            old(self).kill_step(final(self), task_id, r),
    {
        let key = task_id.as_u64();
        match self.tasks.remove(&key) {
            Some(_) => {
                self.waker_cache.remove(&key);
                proof {
                    assert(self.tasks() == old(self).tasks().remove(key));
                    assert(self.wakers() == old(self).wakers().remove(key));
                    assert forall|k: u64| #[trigger]
                        self.tasks().contains_key(k) implies self.tasks()[k].task_id()@ == k by {
                        assert(old(self).tasks().contains_key(k));
                    }
                    assert forall|k: u64| #[trigger]
                        self.wakers().contains_key(k) implies self.tasks().contains_key(k)
                        && self.wakers()[k].task_id()@ == k by {
                        assert(old(self).wakers().contains_key(k));
                    }
                }
                Ok(())
            },
            None => {
                proof {
                    assert(self.tasks() == old(self).tasks());
                    assert(self.wakers() == old(self).wakers());
                }
                Err(Error::UnknownId)
            },
        }
    }

    /// Queues the task `task_id` again through its wake handle, as an
    /// interrupt handler's wake does. An identity that is not in the table is
    /// refused.
    pub fn wake(&mut self, task_id: TaskId) -> (r: Result<(), Error>)
        requires
            old(self).wf(),
        ensures
            final(self).wf(),
            old(self).wake_step(final(self), task_id, r),
    {
        let key = task_id.as_u64();
        if !self.tasks.contains_key(&key) {
            return Err(Error::UnknownId);
        }
        let waker = match self.waker_cache.get(&key) {
            Some(w) => *w,
            None => TaskWaker::new(task_id),
        };
        let r = waker.wake(&mut self.task_queue);
        proof {
            assert(self.tasks() == old(self).tasks());
            assert(self.wakers() == old(self).wakers());
        }
        r
    }

    /// Whether the task `task_id` is in the run table.
    pub fn contains(&self, task_id: TaskId) -> (r: bool)
        ensures
            r == self.tasks().contains_key(task_id@),
    {
        self.tasks.contains_key(&task_id.as_u64())
    }

    /// Whether the ready queue is empty, so that the core may halt until the
    /// next interrupt. Call it with interrupts disabled.
    pub fn is_idle(&self) -> (r: bool)
        ensures
            r == self.idle(),
    {
        self.task_queue.is_empty()
    }
}

impl<T: TaskFuture> Scheduler<T> for RoundRobinScheduler<T> {
    open spec fn well_formed(&self) -> bool {
        self.wf()
    }

    open spec fn idle_state(&self) -> bool {
        self.idle()
    }

    open spec fn spawned(&self, after: &Self, task: T, r: Result<(), Error>) -> bool {
        self.spawn_step(after, task, r)
    }

    open spec fn killed(&self, after: &Self, task_id: TaskId, r: Result<(), Error>) -> bool {
        self.kill_step(after, task_id, r)
    }

    open spec fn woken(&self, after: &Self, task_id: TaskId, r: Result<(), Error>) -> bool {
        self.wake_step(after, task_id, r)
    }

    open spec fn stepped(&self, after: &Self, r: Option<Polled>) -> bool {
        self.next_step(after, r)
    }

    fn spawn(&mut self, task: T) -> (r: Result<(), Error>) {
        RoundRobinScheduler::spawn(self, task)
    }

    fn kill(&mut self, task_id: TaskId) -> (r: Result<(), Error>) {
        RoundRobinScheduler::kill(self, task_id)
    }

    fn wake(&mut self, task_id: TaskId) -> (r: Result<(), Error>) {
        RoundRobinScheduler::wake(self, task_id)
    }

    fn run_next(&mut self) -> (r: Option<Polled>) {
        RoundRobinScheduler::run_next(self)
    }

    fn is_idle(&self) -> bool {
        RoundRobinScheduler::is_idle(self)
    }
}

/// A task that completed in a poll has left the table: killing it afterwards
/// yields `UnknownId`, as for a task that was never spawned.
pub proof fn lemma_completed_task_is_unknown<T: TaskFuture>(
    s: RoundRobinScheduler<T>,
    polled: RoundRobinScheduler<T>,
    p: Polled,
    killed: RoundRobinScheduler<T>,
    r: Result<(), Error>,
)
    requires
        s.wf(),
        s.next_step(&polled, Some(p)),
        p.outcome == Poll::Ready,
        polled.kill_step(&killed, p.id, r),
    ensures
        r == Err::<(), Error>(Error::UnknownId),
        killed.tasks() == polled.tasks(),
{
    lemma_first_live_bounds(s.queue().ids(), s.tasks().dom());
}

/// A successful wake leaves the ready queue non-empty, so the idle check that
/// follows reports work without another round of polls.
pub proof fn lemma_wake_ends_idle<T: TaskFuture>(
    s: RoundRobinScheduler<T>,
    woken: RoundRobinScheduler<T>,
    id: TaskId,
)
    requires
        s.wake_step(&woken, id, Ok(())),
    ensures
        woken.queue().ids().len() > 0,
{
}

/// Waking one task twice before it is dequeued adds exactly two entries for
/// it at the tail of the queue, and leaves the run table, where it appears
/// once, unchanged.
pub proof fn lemma_double_wake<T: TaskFuture>(
    s: RoundRobinScheduler<T>,
    once: RoundRobinScheduler<T>,
    twice: RoundRobinScheduler<T>,
    id: TaskId,
)
    requires
        s.wake_step(&once, id, Ok(())),
        once.wake_step(&twice, id, Ok(())),
    ensures
        twice.tasks() == s.tasks(),
        twice.wakers() == s.wakers(),
        twice.queue().ids() == s.queue().ids().push(id@).push(id@),
        twice.queue().ids().to_multiset().count(id@) == s.queue().ids().to_multiset().count(id@)
            + 2,
{
    let q = s.queue().ids();
    assert(s.tasks().contains_key(id@));
    assert(once.tasks().contains_key(id@));
    q.to_multiset_ensures();
    q.push(id@).to_multiset_ensures();
}

/// `r` reports a poll of the task whose raw identity is `t`.
pub open spec fn is_poll_of(r: Option<Polled>, t: u64) -> bool {
    r is Some && r->0.id@ == t
}

/// How many of `reports` are polls of the task whose raw identity is `t`.
pub open spec fn polls_of(reports: Seq<Option<Polled>>, t: u64) -> nat
    decreases reports.len(),
{
    if reports.len() == 0 {
        0
    } else {
        polls_of(reports.drop_last(), t) + if is_poll_of(reports.last(), t) {
            1nat
        } else {
            0nat
        }
    }
}

proof fn lemma_step_consumes_entry<T: TaskFuture>(
    s: RoundRobinScheduler<T>,
    after: RoundRobinScheduler<T>,
    r: Option<Polled>,
    t: u64,
)
    requires
        s.next_step(&after, r),
        is_poll_of(r, t) ==> r->0.wakes == 0,
    ensures
        after.queue().ids().to_multiset().count(t) + (if is_poll_of(r, t) {
            1int
        } else {
            0int
        }) <= s.queue().ids().to_multiset().count(t),
{
    let q = s.queue().ids();
    let k = first_live(q, s.tasks().dom());
    lemma_first_live_bounds(q, s.tasks().dom());
    q.to_multiset_ensures();
    if k == q.len() {
        assert(after.queue().ids() =~= Seq::<u64>::empty());
        after.queue().ids().to_multiset_ensures();
        assert(!after.queue().ids().contains(t));
    } else {
        let id = q[k];
        let front = q.take(k + 1);
        let rest = q.skip(k + 1);
        let p = r->0;
        assert(q =~= front + rest);
        vstd::seq_lib::lemma_multiset_commutative(front, rest);
        front.to_multiset_ensures();
        assert(front[k] == id);
        assert(front.contains(id));
        let tail = repeat(id, p.requeued as nat);
        vstd::seq_lib::lemma_multiset_commutative(rest, tail);
        tail.to_multiset_ensures();
        if id == t {
            assert(p.requeued == 0);
            assert(tail =~= Seq::<u64>::empty());
        } else {
            assert(!tail.contains(t));
        }
    }
}

/// Wakes are kept but cannot multiply: over any run of `run_next` steps in
/// which the task `t` never asks to be queued again, it is polled at most as
/// often as its identity stood in the ready queue at the start. Two wakes
/// before it is dequeued give at most two polls; the run table, a map, never
/// holds it twice.
pub proof fn lemma_polls_bounded_by_entries<T: TaskFuture>(
    states: Seq<RoundRobinScheduler<T>>,
    reports: Seq<Option<Polled>>,
    t: u64,
)
    requires
        states.len() == reports.len() + 1,
        forall|i: int|
            0 <= i < reports.len() ==> #[trigger] states[i].next_step(&states[i + 1], reports[i]),
        forall|i: int|
            0 <= i < reports.len() ==> is_poll_of(#[trigger] reports[i], t) ==> reports[i]->0.wakes
                == 0,
    ensures
        polls_of(reports, t) + states.last().queue().ids().to_multiset().count(t)
            <= states[0].queue().ids().to_multiset().count(t),
    decreases reports.len(),
{
    if reports.len() > 0 {
        let n = reports.len() - 1;
        let (s2, r2) = (states.take(n + 1), reports.take(n));
        assert forall|i: int| 0 <= i < r2.len() implies #[trigger] s2[i].next_step(
            &s2[i + 1],
            r2[i],
        ) by {
            assert(states[i].next_step(&states[i + 1], reports[i]));
        }
        assert forall|i: int| 0 <= i < r2.len() implies is_poll_of(#[trigger] r2[i], t)
            ==> r2[i]->0.wakes == 0 by {
            assert(reports[i] == r2[i]);
        }
        lemma_polls_bounded_by_entries(s2, r2, t);
        assert(states[n].next_step(&states[n + 1], reports[n]));
        assert(is_poll_of(reports[n], t) ==> reports[n]->0.wakes == 0);
        lemma_step_consumes_entry(states[n], states[n + 1], reports[n], t);
        assert(reports.drop_last() =~= r2);
        assert(s2.last() == states[n]);
        assert(s2[0] == states[0]);
    }
}

proof fn lemma_step_keeps_queued_task<T: TaskFuture>(
    s: RoundRobinScheduler<T>,
    after: RoundRobinScheduler<T>,
    r: Option<Polled>,
    t: u64,
)
    requires
        s.next_step(&after, r),
        s.tasks().contains_key(t),
        s.queue().ids().contains(t),
        !is_poll_of(r, t),
    ensures
        r is Some,
        after.tasks().contains_key(t),
        after.queue().ids().contains(t),
{
    let q = s.queue().ids();
    let k = first_live(q, s.tasks().dom());
    lemma_first_live_bounds(q, s.tasks().dom());
    let j = choose|j: int| 0 <= j < q.len() && q[j] == t;
    assert(k <= j);
    assert(j != k);
    let rest = q.skip(k + 1);
    let tail = repeat(q[k], r->0.requeued as nat);
    assert((rest + tail)[j - k - 1] == t);
}

/// A queued task of the table is polled before a drain can end: over any run
/// of `run_next` steps that ends with the report `None`, a task that was in
/// the table with its identity in the queue at the start is polled at least
/// once.
pub proof fn lemma_queued_task_is_polled<T: TaskFuture>(
    states: Seq<RoundRobinScheduler<T>>,
    reports: Seq<Option<Polled>>,
    t: u64,
)
    requires
        states.len() == reports.len() + 1,
        reports.len() > 0,
        reports.last() is None,
        forall|i: int|
            0 <= i < reports.len() ==> #[trigger] states[i].next_step(&states[i + 1], reports[i]),
        states[0].tasks().contains_key(t),
        states[0].queue().ids().contains(t),
    ensures
        polls_of(reports, t) >= 1,
{
    lemma_polled_or_still_queued(states, reports, t);
    let n = reports.len() - 1;
    if polls_of(reports.drop_last(), t) == 0 {
        assert(states.take(n + 1).last() == states[n]);
        assert(states[n].next_step(&states[n + 1], reports[n]));
        lemma_step_keeps_queued_task(states[n], states[n + 1], reports[n], t);
    }
}

proof fn lemma_polled_or_still_queued<T: TaskFuture>(
    states: Seq<RoundRobinScheduler<T>>,
    reports: Seq<Option<Polled>>,
    t: u64,
)
    requires
        states.len() == reports.len() + 1,
        forall|i: int|
            0 <= i < reports.len() ==> #[trigger] states[i].next_step(&states[i + 1], reports[i]),
        states[0].tasks().contains_key(t),
        states[0].queue().ids().contains(t),
    ensures
        polls_of(reports, t) >= 1 || {
            &&& states.last().tasks().contains_key(t)
            &&& states.last().queue().ids().contains(t)
        },
        reports.len() > 0 ==> polls_of(reports.drop_last(), t) >= 1 || {
            &&& states[reports.len() - 1].tasks().contains_key(t)
            &&& states[reports.len() - 1].queue().ids().contains(t)
        },
    decreases reports.len(),
{
    if reports.len() > 0 {
        let n = reports.len() - 1;
        let (s2, r2) = (states.take(n + 1), reports.take(n));
        assert forall|i: int| 0 <= i < r2.len() implies #[trigger] s2[i].next_step(
            &s2[i + 1],
            r2[i],
        ) by {
            assert(states[i].next_step(&states[i + 1], reports[i]));
        }
        lemma_polled_or_still_queued(s2, r2, t);
        assert(reports.drop_last() =~= r2);
        assert(s2.last() == states[n]);
        assert(s2[0] == states[0]);
        if polls_of(r2, t) == 0 && !is_poll_of(reports[n], t) {
            assert(states[n].next_step(&states[n + 1], reports[n]));
            lemma_step_keeps_queued_task(states[n], states[n + 1], reports[n], t);
        }
    }
}

} // verus!
