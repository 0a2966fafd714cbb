use vstd::prelude::*;

use super::round_robin::{lemma_first_live_bounds, Polled, RoundRobinScheduler};
use super::{Error, Scheduler};
use crate::task::{Computation, Priority, PriorityTask, TaskFuture, TaskId};

verus! {

/// Serves tasks by band: every runnable `High` task before any `Medium` one,
/// and every runnable `Medium` task before any `Low` one. Within a band tasks
/// run in the order in which they became runnable, and a task that yields goes
/// back to the tail of its own band. Sustained `High` work starves the lower
/// bands.
pub struct PriorityScheduler<F: Computation> {
    high: RoundRobinScheduler<PriorityTask<F>>,
    medium: RoundRobinScheduler<PriorityTask<F>>,
    low: RoundRobinScheduler<PriorityTask<F>>,
}

impl<F: Computation> PriorityScheduler<F> {
    /// The run table and ready queue of band `p`.
    pub closed spec fn band(&self, p: Priority) -> RoundRobinScheduler<PriorityTask<F>> {
        match p {
            Priority::High => self.high,
            Priority::Medium => self.medium,
            Priority::Low => self.low,
        }
    }

    pub open spec fn wf(&self) -> bool {
        &&& self.band(Priority::High).wf()
        &&& self.band(Priority::Medium).wf()
        &&& self.band(Priority::Low).wf()
    }

    /// `after` is `self` after `spawn(task)` returned `r`: the band of the
    /// task's priority changes as that band's `spawn` says; the others stay.
    pub open spec fn spawn_step(&self, after: &Self, task: PriorityTask<F>, r: Result<(), Error>) -> bool {
        &&& self.band(task.spec_priority()).spawn_step(&after.band(task.spec_priority()), task, r)
        &&& forall|p: Priority| p != task.spec_priority() ==> #[trigger] after.band(p) == self.band(p)
    }

    /// The band searched for `task_id`: the first, from `High` down, whose
    /// table holds it, and `Low` when none does.
    pub open spec fn band_of(&self, task_id: TaskId) -> Priority {
        if self.band(Priority::High).tasks().contains_key(task_id@) {
            Priority::High
        } else if self.band(Priority::Medium).tasks().contains_key(task_id@) {
            Priority::Medium
        } else {
            Priority::Low
        }
    }

    /// `after` is `self` after `kill(task_id)` returned `r`: the band that
    /// holds the task changes as its `kill` says (so `UnknownId` when no band
    /// holds it); the others stay.
    pub open spec fn kill_step(&self, after: &Self, task_id: TaskId, r: Result<(), Error>) -> bool {
        let b = self.band_of(task_id);
        &&& self.band(b).kill_step(&after.band(b), task_id, r)
        &&& forall|p: Priority| p != b ==> #[trigger] after.band(p) == self.band(p)
    }

    /// `after` is `self` after `wake(task_id)` returned `r`: the band that
    /// holds the task changes as its `wake` says; the others stay.
    pub open spec fn wake_step(&self, after: &Self, task_id: TaskId, r: Result<(), Error>) -> bool {
        let b = self.band_of(task_id);
        &&& self.band(b).wake_step(&after.band(b), task_id, r)
        &&& forall|p: Priority| p != b ==> #[trigger] after.band(p) == self.band(p)
    }

    /// `after` is `self` after one `run_next` that reported `r`: the first
    /// band, from `High` down, whose queue names a task of its table takes one
    /// `run_next` step; the bands above it have only stale entries, which are
    /// dropped, and the bands below it are not touched.
    pub open spec fn next_step(&self, after: &Self, r: Option<Polled>) -> bool {
        let (h, m, l) = (
            self.band(Priority::High),
            self.band(Priority::Medium),
            self.band(Priority::Low),
        );
        let (h2, m2, l2) = (
            after.band(Priority::High),
            after.band(Priority::Medium),
            after.band(Priority::Low),
        );
        if h.has_live_entry() {
            h.next_step(&h2, r) && m2 == m && l2 == l
        } else if m.has_live_entry() {
            h.next_step(&h2, None) && m.next_step(&m2, r) && l2 == l
        } else {
            h.next_step(&h2, None) && m.next_step(&m2, None) && l.next_step(&l2, r)
        }
    }

    /// Every ready queue is empty.
    pub open spec fn idle(&self) -> bool {
        &&& self.band(Priority::High).idle()
        &&& self.band(Priority::Medium).idle()
        &&& self.band(Priority::Low).idle()
    }

    /// An empty scheduler: three empty bands.
    pub fn new() -> (r: Self)
        ensures
            r.wf(),
            forall|p: Priority|
                {
                    &&& (#[trigger] r.band(p)).tasks() == Map::<u64, PriorityTask<F>>::empty()
                    &&& r.band(p).queue().ids() == Seq::<u64>::empty()
                },
    {
        PriorityScheduler {
            high: RoundRobinScheduler::new(),
            medium: RoundRobinScheduler::new(),
            low: RoundRobinScheduler::new(),
        }
    }

    /// Adds `task` to the band of its priority, with the errors of that band's
    /// `spawn`; the other bands are left as they were.
    pub fn spawn(&mut self, task: PriorityTask<F>) -> (r: Result<(), Error>)
        requires
            old(self).wf(),
        ensures
            final(self).wf(),
            old(self).spawn_step(final(self), task, r),
    {
        match task.priority() {
            Priority::High => self.high.spawn(task),
            Priority::Medium => self.medium.spawn(task),
            Priority::Low => self.low.spawn(task),
        }
    }

    /// Removes the task `task_id` from whichever band holds it, searching from
    /// `High` down; `UnknownId` when no band does.
    pub fn kill(&mut self, task_id: TaskId) -> (r: Result<(), Error>)
        requires
            old(self).wf(),
        ensures
            final(self).wf(),
            old(self).kill_step(final(self), task_id, r),
    {
        if self.high.contains(task_id) {
            self.high.kill(task_id)
        } else if self.medium.contains(task_id) {
            self.medium.kill(task_id)
        } else {
            self.low.kill(task_id)
        }
    }

    /// Queues the task `task_id` again in its own band; `UnknownId` when no
    /// band holds it.
    pub fn wake(&mut self, task_id: TaskId) -> (r: Result<(), Error>)
        requires
            old(self).wf(),
        ensures
            final(self).wf(),
            old(self).wake_step(final(self), task_id, r),
    {
        if self.high.contains(task_id) {
            self.high.wake(task_id)
        } else if self.medium.contains(task_id) {
            self.medium.wake(task_id)
        } else {
            self.low.wake(task_id)
        }
    }

    /// One step of draining the ready queues: the first band, from `High`
    /// down, whose queue names a task of its table takes one `run_next` step;
    /// the bands above it have only stale entries, which are dropped, and the
    /// bands below it are not touched. `None` once no band has a runnable
    /// task.
    pub fn run_next(&mut self) -> (r: Option<Polled>)
        requires
            old(self).wf(),
        ensures
            final(self).wf(),
            old(self).next_step(final(self), r),
    {
        proof {
            lemma_first_live_bounds(self.high.queue().ids(), self.high.tasks().dom());
            lemma_first_live_bounds(self.medium.queue().ids(), self.medium.tasks().dom());
        }
        let polled = self.high.run_next();
        if polled.is_some() {
            return polled;
        }
        let polled = self.medium.run_next();
        if polled.is_some() {
            return polled;
        }
        self.low.run_next()
    }

    /// Whether every ready queue is empty, so that the core may halt until
    /// the next interrupt. Call it with interrupts disabled.
    pub fn is_idle(&self) -> (r: bool)
        ensures
            r == self.idle(),
    {
        self.high.is_idle() && self.medium.is_idle() && self.low.is_idle()
    }
}

impl<F: Computation> Scheduler<PriorityTask<F>> for PriorityScheduler<F> {
    open spec fn well_formed(&self) -> bool {
        self.wf()
    }

    open spec fn idle_state(&self) -> bool {
        self.idle()
    }

    open spec fn spawned(&self, after: &Self, task: PriorityTask<F>, r: Result<(), Error>) -> bool {
        self.spawn_step(after, task, r)
    }

    open spec fn killed(&self, after: &Self, task_id: TaskId, r: Result<(), Error>) -> bool {
        self.kill_step(after, task_id, r)
    }

    open spec fn woken(&self, after: &Self, task_id: TaskId, r: Result<(), Error>) -> bool {
        self.wake_step(after, task_id, r)
    }

    open spec fn stepped(&self, after: &Self, r: Option<Polled>) -> bool {
        self.next_step(after, r)
    }

    fn spawn(&mut self, task: PriorityTask<F>) -> (r: Result<(), Error>) {
        PriorityScheduler::spawn(self, task)
    }

    fn kill(&mut self, task_id: TaskId) -> (r: Result<(), Error>) {
        PriorityScheduler::kill(self, task_id)
    }

    fn wake(&mut self, task_id: TaskId) -> (r: Result<(), Error>) {
        PriorityScheduler::wake(self, task_id)
    }

    fn run_next(&mut self) -> (r: Option<Polled>) {
        PriorityScheduler::run_next(self)
    }

    fn is_idle(&self) -> bool {
        PriorityScheduler::is_idle(self)
    }
}

/// Starvation under sustained `High` load, which strict precedence accepts:
/// over any run of `run_next` steps before each of which the `High` band has a
/// runnable task, every poll is of a `High` task, and the `Medium` and `Low`
/// bands are never touched.
pub proof fn lemma_high_load_starves_lower_bands<F: Computation>(
    states: Seq<PriorityScheduler<F>>,
    reports: Seq<Option<Polled>>,
)
    requires
        states.len() == reports.len() + 1,
        forall|i: int|
            0 <= i < reports.len() ==> #[trigger] states[i].next_step(&states[i + 1], reports[i]),
        forall|i: int| 0 <= i < reports.len() ==> (#[trigger] states[i].band(Priority::High)).has_live_entry(),
    ensures
        forall|i: int|
            0 <= i < states.len() ==> {
                &&& (#[trigger] states[i]).band(Priority::Medium) == states[0].band(Priority::Medium)
                &&& states[i].band(Priority::Low) == states[0].band(Priority::Low)
            },
        forall|i: int|
            0 <= i < reports.len() ==> {
                &&& (#[trigger] reports[i]) is Some
                &&& states[i].band(Priority::High).tasks().contains_key(reports[i]->0.id@)
            },
    decreases reports.len(),
{
    if reports.len() > 0 {
        let n = reports.len() - 1;
        lemma_high_load_starves_lower_bands(states.take(n + 1), reports.take(n));
        assert(states[n].next_step(&states[n + 1], reports[n]));
        assert(states[n].band(Priority::High).has_live_entry());
        assert(states.take(n + 1)[n] == states[n]);
        assert(states.take(n + 1)[0] == states[0]);
        assert forall|i: int| 0 <= i < reports.len() implies {
            &&& (#[trigger] reports[i]) is Some
            &&& states[i].band(Priority::High).tasks().contains_key(reports[i]->0.id@)
        } by {
            let h = states[i].band(Priority::High);
            lemma_first_live_bounds(h.queue().ids(), h.tasks().dom());
            assert(states[i].next_step(&states[i + 1], reports[i]));
            assert(h.has_live_entry());
        }
        assert forall|i: int| 0 <= i < states.len() implies {
            &&& (#[trigger] states[i]).band(Priority::Medium) == states[0].band(Priority::Medium)
            &&& states[i].band(Priority::Low) == states[0].band(Priority::Low)
        } by {
            if i <= n {
                assert(states.take(n + 1)[i] == states[i]);
            }
        }
    }
}

} // verus!
