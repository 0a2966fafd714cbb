use vstd::prelude::*;

use crate::queue::ReadyQueue;
use crate::task::{TaskFuture, TaskId};

use self::round_robin::Polled;

pub mod priority;
pub mod round_robin;

verus! {

/// What a scheduler operation can fail with.
#[derive(Debug, Clone, Copy, PartialEq, Eq, Structural)]
pub enum Error {
    /// A task with the same identity is already in the run table.
    DuplicateId,
    /// A ready queue is at its capacity and refused an identity.
    TaskQueueFull,
    /// No run table holds the identity.
    UnknownId,
}

/// What the kernel drives: tasks come in by `spawn`, leave by `kill` or by
/// completing, and are polled one `run_next` step at a time. The loop that
/// never returns (drain with `run_next`, then halt while `is_idle`) belongs
/// to the caller, which owns the interrupt flag.
pub trait Scheduler<T: TaskFuture>: Sized {
    spec fn well_formed(&self) -> bool;

    /// No ready queue holds an entry.
    spec fn idle_state(&self) -> bool;

    /// `after` is `self` after `spawn(task)` returned `r`.
    spec fn spawned(&self, after: &Self, task: T, r: Result<(), Error>) -> bool;

    /// `after` is `self` after `kill(task_id)` returned `r`.
    spec fn killed(&self, after: &Self, task_id: TaskId, r: Result<(), Error>) -> bool;

    /// `after` is `self` after `wake(task_id)` returned `r`.
    spec fn woken(&self, after: &Self, task_id: TaskId, r: Result<(), Error>) -> bool;

    /// `after` is `self` after a `run_next` that reported `r`.
    spec fn stepped(&self, after: &Self, r: Option<Polled>) -> bool;

    fn spawn(&mut self, task: T) -> (r: Result<(), Error>)
        requires
            old(self).well_formed(),
        ensures
            final(self).well_formed(),
            old(self).spawned(final(self), task, r),
    ;

    fn kill(&mut self, task_id: TaskId) -> (r: Result<(), Error>)
        requires
            old(self).well_formed(),
        ensures
            final(self).well_formed(),
            old(self).killed(final(self), task_id, r),
    ;

    fn wake(&mut self, task_id: TaskId) -> (r: Result<(), Error>)
        requires
            old(self).well_formed(),
        ensures
            final(self).well_formed(),
            old(self).woken(final(self), task_id, r),
    ;

    fn run_next(&mut self) -> (r: Option<Polled>)
        requires
            old(self).well_formed(),
        ensures
            final(self).well_formed(),
            old(self).stepped(final(self), r),
    ;

    fn is_idle(&self) -> (r: bool)
        ensures
            r == self.idle_state(),
    ;
}

/// The capacity of every ready queue a scheduler creates.
pub const TASK_QUEUE_CAPACITY: usize = 1024;

/// `after` is `before` once `id` was offered to it, and `r` tells how that went.
pub open spec fn pushed(before: ReadyQueue, after: ReadyQueue, id: u64, r: Result<(), Error>) -> bool {
    &&& after.capacity() == before.capacity()
    &&& !before.is_full() ==> r is Ok && after.ids() == before.ids().push(id)
    &&& before.is_full() ==> r == Err::<(), Error>(Error::TaskQueueFull) && after.ids() == before.ids()
}

/// The handle through which a suspended task is made runnable again: it puts
/// the task's identity back into a ready queue.
#[derive(Debug, Clone, Copy)]
pub struct TaskWaker {
    task_id: TaskId,
}

impl TaskWaker {
    pub closed spec fn task_id(&self) -> TaskId {
        self.task_id
    }

    pub fn new(task_id: TaskId) -> (r: TaskWaker)
        ensures
            r.task_id() == task_id,
    {
        TaskWaker { task_id }
    }

    pub fn id(&self) -> (r: TaskId)
        ensures
            r == self.task_id(),
    {
        self.task_id
    }

    fn wake_task(&self, queue: &mut ReadyQueue) -> (r: Result<(), Error>)
        ensures
            pushed(*old(queue), *final(queue), self.task_id()@, r),
    {
        match queue.push(self.task_id) {
            Ok(()) => Ok(()),
            Err(_) => Err(Error::TaskQueueFull),
        }
    }

    /// Queues the task again, consuming the handle.
    pub fn wake(self, queue: &mut ReadyQueue) -> (r: Result<(), Error>)
        ensures
            pushed(*old(queue), *final(queue), self.task_id()@, r),
    {
        self.wake_task(queue)
    }

    /// Queues the task again; the same effect as `wake`.
    pub fn wake_by_ref(&self, queue: &mut ReadyQueue) -> (r: Result<(), Error>)
        ensures
            pushed(*old(queue), *final(queue), self.task_id()@, r),
    {
        self.wake_task(queue)
    }
}

} // verus!
