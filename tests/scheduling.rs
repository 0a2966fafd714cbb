use kernel_tasks::scheduler::priority::PriorityScheduler;
use kernel_tasks::scheduler::round_robin::{Polled, RoundRobinScheduler};
use kernel_tasks::scheduler::{Error, Scheduler, TaskWaker, TASK_QUEUE_CAPACITY};
use kernel_tasks::task::{
    Computation, Context, IdCounter, Poll, Priority, PriorityTask, Task, TaskFuture, TaskId,
};
use kernel_tasks::yields::{yield_init, Yield};

/// Computations used to drive the schedulers.
enum Work {
    /// Completes in its first poll.
    Once,
    /// Asks to be queued again and suspends, every poll.
    Forever,
    /// Suspends without asking to be queued again.
    Parked,
    /// Suspends once through the suspension point, then completes.
    YieldOnce(Yield),
    /// Asks twice to be queued again and suspends, then completes.
    WakeTwice(bool),
}

impl Computation for Work {
    fn poll(&mut self, cx: &mut Context) -> Poll {
        match self {
            Work::Once => Poll::Ready,
            Work::Forever => {
                cx.wake_by_ref();
                Poll::Pending
            }
            Work::Parked => Poll::Pending,
            Work::YieldOnce(y) => y.poll(cx),
            Work::WakeTwice(done) => {
                if *done {
                    Poll::Ready
                } else {
                    *done = true;
                    cx.wake_by_ref();
                    cx.wake_by_ref();
                    Poll::Pending
                }
            }
        }
    }
}

fn drain<S: Scheduler<T>, T: TaskFuture>(s: &mut S) -> Vec<Polled> {
    let mut out = Vec::new();
    while let Some(p) = s.run_next() {
        out.push(p);
    }
    out
}

fn ids(polls: &[Polled]) -> Vec<TaskId> {
    polls.iter().map(|p| p.id).collect()
}

#[test]
fn ids_are_distinct_and_increasing() {
    let mut counter = IdCounter::new();
    let tasks: Vec<Task<Work>> = (0..5).map(|_| Task::new(&mut counter, Work::Once)).collect();
    let raw: Vec<u64> = tasks.iter().map(|t| t.id().as_u64()).collect();
    assert_eq!(raw, vec![0, 1, 2, 3, 4]);
    for w in raw.windows(2) {
        assert!(w[0] < w[1]);
    }
    assert!(tasks[0].id() < tasks[1].id());
}

#[test]
fn spawn_with_duplicate_id_changes_nothing() {
    let mut first = IdCounter::new();
    let mut second = IdCounter::new();
    let a = Task::new(&mut first, Work::Parked);
    let b = Task::new(&mut second, Work::Once);
    assert_eq!(a.id(), b.id());
    let id = a.id();
    let mut s = RoundRobinScheduler::new();
    assert_eq!(s.spawn(a), Ok(()));
    assert_eq!(s.spawn(b), Err(Error::DuplicateId));
    // the first task is still the one in the table, queued once
    let polls = drain(&mut s);
    assert_eq!(polls.len(), 1);
    assert_eq!(polls[0].id, id);
    assert_eq!(polls[0].outcome, Poll::Pending);
    assert!(s.contains(id));
}

#[test]
fn kill_of_unknown_or_completed_task_fails() {
    let mut counter = IdCounter::new();
    let mut s = RoundRobinScheduler::new();
    let never = Task::new(&mut counter, Work::Once);
    assert_eq!(s.kill(never.id()), Err(Error::UnknownId));

    let done = Task::new(&mut counter, Work::Once);
    let id = done.id();
    s.spawn(done).unwrap();
    let polls = drain(&mut s);
    assert_eq!(polls[0].outcome, Poll::Ready);
    assert_eq!(s.kill(id), Err(Error::UnknownId));
}

#[test]
fn kill_removes_a_suspended_task() {
    let mut counter = IdCounter::new();
    let mut s = RoundRobinScheduler::new();
    let t = Task::new(&mut counter, Work::Parked);
    let id = t.id();
    s.spawn(t).unwrap();
    assert_eq!(s.kill(id), Ok(()));
    assert!(!s.contains(id));
    // the queued entry is now stale and is dropped without a poll
    assert!(!s.is_idle());
    assert_eq!(s.run_next(), None);
    assert!(s.is_idle());
}

#[test]
fn round_robin_runs_in_spawn_order() {
    let mut counter = IdCounter::new();
    let mut s = RoundRobinScheduler::new();
    let a = Task::new(&mut counter, Work::Once);
    let b = Task::new(&mut counter, Work::Once);
    let c = Task::new(&mut counter, Work::Once);
    let order = vec![a.id(), b.id(), c.id()];
    s.spawn(a).unwrap();
    s.spawn(b).unwrap();
    s.spawn(c).unwrap();
    let polls = drain(&mut s);
    assert_eq!(ids(&polls), order);
    assert!(polls.iter().all(|p| p.outcome == Poll::Ready && p.wakes == 0 && p.requeued == 0));
    for id in order {
        assert!(!s.contains(id));
    }
    assert!(s.is_idle());
}

#[test]
fn yielding_task_lets_others_run_first() {
    let mut counter = IdCounter::new();
    let mut s = RoundRobinScheduler::new();
    let y = Task::new(&mut counter, Work::YieldOnce(yield_init()));
    let b = Task::new(&mut counter, Work::Once);
    let (yid, bid) = (y.id(), b.id());
    s.spawn(y).unwrap();
    s.spawn(b).unwrap();
    let polls = drain(&mut s);
    assert_eq!(ids(&polls), vec![yid, bid, yid]);
    assert_eq!(polls[0].outcome, Poll::Pending);
    assert_eq!(polls[0].wakes, 1);
    assert_eq!(polls[0].requeued, 1);
    assert_eq!(polls[1].outcome, Poll::Ready);
    assert_eq!(polls[2].outcome, Poll::Ready);
    assert!(!s.contains(yid));
}

#[test]
fn high_priority_completes_before_low_is_polled() {
    let mut counter = IdCounter::new();
    let mut s = PriorityScheduler::new();
    let low = PriorityTask::new(&mut counter, Priority::Low, Work::Once);
    let high = PriorityTask::new(&mut counter, Priority::High, Work::Once);
    assert_eq!(high.priority(), Priority::High);
    let (lid, hid) = (low.id(), high.id());
    s.spawn(low).unwrap();
    s.spawn(high).unwrap();
    let polls = drain(&mut s);
    assert_eq!(ids(&polls), vec![hid, lid]);
    assert_eq!(polls[0].outcome, Poll::Ready);
}

#[test]
fn medium_runs_between_high_and_low() {
    let mut counter = IdCounter::new();
    let mut s = PriorityScheduler::new();
    let low = PriorityTask::new(&mut counter, Priority::Low, Work::Once);
    let medium = PriorityTask::new(&mut counter, Priority::Medium, Work::Once);
    let high = PriorityTask::new(&mut counter, Priority::High, Work::Once);
    let order = vec![high.id(), medium.id(), low.id()];
    s.spawn(low).unwrap();
    s.spawn(medium).unwrap();
    s.spawn(high).unwrap();
    assert_eq!(ids(&drain(&mut s)), order);
}

#[test]
fn yielding_high_task_starves_low() {
    // strict precedence: a high task that always requeues itself keeps the
    // low band from ever running
    let mut counter = IdCounter::new();
    let mut s = PriorityScheduler::new();
    let high = PriorityTask::new(&mut counter, Priority::High, Work::Forever);
    let low = PriorityTask::new(&mut counter, Priority::Low, Work::Once);
    let (hid, lid) = (high.id(), low.id());
    s.spawn(high).unwrap();
    s.spawn(low).unwrap();
    for _ in 0..200 {
        let p = s.run_next().unwrap();
        assert_eq!(p.id, hid);
        assert_eq!(p.outcome, Poll::Pending);
        assert_eq!(p.requeued, 1);
    }
    // once the high task is gone the low one runs
    assert_eq!(s.kill(hid), Ok(()));
    let polls = drain(&mut s);
    assert_eq!(ids(&polls), vec![lid]);
}

#[test]
fn yield_requeues_at_tail_of_own_band() {
    let mut counter = IdCounter::new();
    let mut s = PriorityScheduler::new();
    let a = PriorityTask::new(&mut counter, Priority::High, Work::YieldOnce(yield_init()));
    let b = PriorityTask::new(&mut counter, Priority::High, Work::Once);
    let c = PriorityTask::new(&mut counter, Priority::Low, Work::Once);
    let (aid, bid, cid) = (a.id(), b.id(), c.id());
    s.spawn(a).unwrap();
    s.spawn(b).unwrap();
    s.spawn(c).unwrap();
    assert_eq!(ids(&drain(&mut s)), vec![aid, bid, aid, cid]);
}

#[test]
fn idle_check_sees_a_single_wake() {
    let mut counter = IdCounter::new();
    let mut s = PriorityScheduler::new();
    assert!(s.is_idle());
    let t = PriorityTask::new(&mut counter, Priority::Medium, Work::Parked);
    let id = t.id();
    s.spawn(t).unwrap();
    assert!(!s.is_idle());
    drain(&mut s);
    assert!(s.is_idle());
    assert_eq!(s.wake(id), Ok(()));
    assert!(!s.is_idle());
}

#[test]
fn round_robin_idle_check_sees_a_single_wake() {
    let mut counter = IdCounter::new();
    let mut s = RoundRobinScheduler::new();
    let t = Task::new(&mut counter, Work::Parked);
    let id = t.id();
    s.spawn(t).unwrap();
    drain(&mut s);
    assert!(s.is_idle());
    assert_eq!(s.wake(id), Ok(()));
    assert!(!s.is_idle());
}

#[test]
fn double_wake_gives_at_most_two_polls() {
    let mut counter = IdCounter::new();
    let mut s = RoundRobinScheduler::new();
    let t = Task::new(&mut counter, Work::Parked);
    let id = t.id();
    s.spawn(t).unwrap();
    assert_eq!(drain(&mut s).len(), 1);
    assert_eq!(s.wake(id), Ok(()));
    assert_eq!(s.wake(id), Ok(()));
    let polls = drain(&mut s);
    assert_eq!(ids(&polls), vec![id, id]);
    assert!(s.contains(id));
}

#[test]
fn double_wake_of_completing_task_polls_it_once() {
    let mut counter = IdCounter::new();
    let mut s = RoundRobinScheduler::new();
    let first = Task::new(&mut counter, Work::YieldOnce(yield_init()));
    let id = first.id();
    s.spawn(first).unwrap();
    // first poll suspends and requeues; then two more wakes arrive
    let p = s.run_next().unwrap();
    assert_eq!(p.requeued, 1);
    assert_eq!(s.wake(id), Ok(()));
    assert_eq!(s.wake(id), Ok(()));
    // the task completes on its next poll; the remaining entries are stale
    let polls = drain(&mut s);
    assert_eq!(ids(&polls), vec![id]);
    assert_eq!(polls[0].outcome, Poll::Ready);
    assert!(s.is_idle());
}

#[test]
fn wake_of_unknown_task_is_refused() {
    let mut counter = IdCounter::new();
    let stray = Task::new(&mut counter, Work::Once);
    let mut rr: RoundRobinScheduler<Task<Work>> = RoundRobinScheduler::new();
    assert_eq!(rr.wake(stray.id()), Err(Error::UnknownId));
    assert!(rr.is_idle());
    let mut pr: PriorityScheduler<Work> = PriorityScheduler::new();
    assert_eq!(pr.wake(stray.id()), Err(Error::UnknownId));
    assert_eq!(pr.kill(stray.id()), Err(Error::UnknownId));
}

#[test]
fn spawn_into_full_queue_fails() {
    let mut counter = IdCounter::new();
    let mut s = RoundRobinScheduler::new();
    for _ in 0..TASK_QUEUE_CAPACITY {
        assert_eq!(s.spawn(Task::new(&mut counter, Work::Once)), Ok(()));
    }
    let extra = Task::new(&mut counter, Work::Once);
    let id = extra.id();
    assert_eq!(s.spawn(extra), Err(Error::TaskQueueFull));
    assert!(!s.contains(id));
    assert_eq!(drain(&mut s).len(), TASK_QUEUE_CAPACITY);
}

#[test]
fn wake_into_full_queue_fails() {
    let mut counter = IdCounter::new();
    let mut s = RoundRobinScheduler::new();
    let first = Task::new(&mut counter, Work::Parked);
    let id = first.id();
    s.spawn(first).unwrap();
    for _ in 1..TASK_QUEUE_CAPACITY {
        s.spawn(Task::new(&mut counter, Work::Once)).unwrap();
    }
    assert_eq!(s.wake(id), Err(Error::TaskQueueFull));
}

#[test]
fn priority_kill_finds_any_band() {
    let mut counter = IdCounter::new();
    let mut s = PriorityScheduler::new();
    let low = PriorityTask::new(&mut counter, Priority::Low, Work::Parked);
    let medium = PriorityTask::new(&mut counter, Priority::Medium, Work::Parked);
    let (lid, mid) = (low.id(), medium.id());
    s.spawn(low).unwrap();
    s.spawn(medium).unwrap();
    assert_eq!(s.kill(lid), Ok(()));
    assert_eq!(s.kill(mid), Ok(()));
    assert_eq!(s.kill(lid), Err(Error::UnknownId));
    assert_eq!(s.run_next(), None);
}

#[test]
fn duplicate_id_is_scoped_to_its_band() {
    let mut first = IdCounter::new();
    let mut second = IdCounter::new();
    let mut s = PriorityScheduler::new();
    s.spawn(PriorityTask::new(&mut first, Priority::High, Work::Once)).unwrap();
    let again = PriorityTask::new(&mut second, Priority::High, Work::Once);
    assert_eq!(s.spawn(again), Err(Error::DuplicateId));
}

#[test]
fn suspension_point_yields_exactly_once() {
    let mut counter = IdCounter::new();
    let id = TaskId::new(&mut counter);
    let waker = TaskWaker::new(id);
    let mut y = yield_init();
    assert!(y.pending_once());
    let mut cx = Context::from_waker(waker);
    assert_eq!(cx.wakes(), 0);
    assert_eq!(y.poll(&mut cx), Poll::Pending);
    assert_eq!(cx.wakes(), 1);
    assert_eq!(cx.waker().id(), id);
    assert!(!y.pending_once());
    let mut cx = Context::from_waker(waker);
    assert_eq!(y.poll(&mut cx), Poll::Ready);
    assert_eq!(cx.wakes(), 0);
    assert!(!y.pending_once());
}

#[test]
fn repeated_wakes_in_one_poll_are_all_queued() {
    let mut counter = IdCounter::new();
    let mut s = RoundRobinScheduler::new();
    let t = Task::new(&mut counter, Work::WakeTwice(false));
    let b = Task::new(&mut counter, Work::Once);
    let (tid, bid) = (t.id(), b.id());
    s.spawn(t).unwrap();
    s.spawn(b).unwrap();
    let first = s.run_next().unwrap();
    assert_eq!((first.id, first.outcome, first.wakes, first.requeued), (tid, Poll::Pending, 2, 2));
    // b, then t completes; t's second entry is stale and dropped unpolled
    let rest = drain(&mut s);
    assert_eq!(ids(&rest), vec![bid, tid]);
    assert_eq!(rest[1].outcome, Poll::Ready);
    assert!(s.is_idle());
}

#[test]
fn wake_beyond_queue_room_is_reported_lost() {
    let mut counter = IdCounter::new();
    let mut s = RoundRobinScheduler::new();
    let t = Task::new(&mut counter, Work::WakeTwice(false));
    let tid = t.id();
    s.spawn(t).unwrap();
    for _ in 1..TASK_QUEUE_CAPACITY {
        s.spawn(Task::new(&mut counter, Work::Parked)).unwrap();
    }
    // popping t frees one slot; of its two wake requests only one fits
    let p = s.run_next().unwrap();
    assert_eq!((p.id, p.wakes, p.requeued), (tid, 2, 1));
}

#[test]
fn context_counts_each_wake_request() {
    let mut counter = IdCounter::new();
    let mut cx = Context::from_waker(TaskWaker::new(TaskId::new(&mut counter)));
    cx.wake_by_ref();
    cx.wake_by_ref();
    cx.wake_by_ref();
    assert_eq!(cx.wakes(), 3);
}
