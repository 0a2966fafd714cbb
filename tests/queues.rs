use kernel_tasks::queue::ReadyQueue;
use kernel_tasks::scheduler::{Error, TaskWaker};
use kernel_tasks::task::{IdCounter, TaskId};

fn three_ids() -> (TaskId, TaskId, TaskId) {
    let mut counter = IdCounter::new();
    let a = TaskId::new(&mut counter);
    let b = TaskId::new(&mut counter);
    let c = TaskId::new(&mut counter);
    (a, b, c)
}

#[test]
fn ready_queue_is_fifo() {
    let (a, b, c) = three_ids();
    let mut q = ReadyQueue::new(4);
    assert!(q.is_empty());
    q.push(b).unwrap();
    q.push(a).unwrap();
    q.push(c).unwrap();
    assert!(!q.is_empty());
    assert_eq!(q.pop(), Some(b));
    assert_eq!(q.pop(), Some(a));
    assert_eq!(q.pop(), Some(c));
    assert_eq!(q.pop(), None);
    assert!(q.is_empty());
}

#[test]
fn ready_queue_refuses_beyond_capacity() {
    let (a, b, c) = three_ids();
    let mut q = ReadyQueue::new(2);
    assert_eq!(q.push(a), Ok(()));
    assert_eq!(q.push(b), Ok(()));
    assert_eq!(q.push(c), Err(c));
    assert_eq!(q.pop(), Some(a));
    assert_eq!(q.push(c), Ok(()));
    assert_eq!(q.pop(), Some(b));
    assert_eq!(q.pop(), Some(c));
}

#[test]
fn waker_pushes_its_own_id() {
    let (a, b, _) = three_ids();
    let mut q = ReadyQueue::new(2);
    let wa = TaskWaker::new(a);
    let wb = TaskWaker::new(b);
    assert_eq!(wb.wake_by_ref(&mut q), Ok(()));
    assert_eq!(wa.wake(&mut q), Ok(()));
    assert_eq!(wb.wake(&mut q), Err(Error::TaskQueueFull));
    assert_eq!(q.pop(), Some(b));
    assert_eq!(q.pop(), Some(a));
}

#[test]
fn waker_duplicates_are_kept() {
    let (a, _, _) = three_ids();
    let mut q = ReadyQueue::new(4);
    let w = TaskWaker::new(a);
    w.wake_by_ref(&mut q).unwrap();
    w.wake_by_ref(&mut q).unwrap();
    assert_eq!(q.pop(), Some(a));
    assert_eq!(q.pop(), Some(a));
    assert_eq!(q.pop(), None);
}
