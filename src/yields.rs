use vstd::prelude::*;

use crate::task::{Computation, Context, Poll};

verus! {

/// A computation that suspends exactly once: its first poll asks for the task
/// to be queued again and reports `Pending`, its second reports `Ready`.
/// Awaiting it inside a longer task lets the other ready tasks run first.
#[derive(Debug)]
pub struct Yield {
    pending_once: bool,
}

impl Yield {
    /// Whether the next poll is the one that suspends.
    pub closed spec fn spec_pending_once(&self) -> bool {
        self.pending_once
    }

    pub fn pending_once(&self) -> (r: bool)
        ensures
            r == self.spec_pending_once(),
    {
        self.pending_once
    }
}

/// A fresh suspension point, which will yield once.
pub fn yield_init() -> (r: Yield)
    ensures
        r.spec_pending_once(),
{
    Yield { pending_once: true }
}

impl Computation for Yield {
    /// Pending once: suspends with one wake request. Done: completes with
    /// none. Either way the flag is clear afterwards.
    open spec fn polled(&self, after: &Self, wakes: nat, r: Poll) -> bool {
        &&& !after.spec_pending_once()
        &&& self.spec_pending_once() ==> r == Poll::Pending && wakes == 1
        &&& !self.spec_pending_once() ==> r == Poll::Ready && wakes == 0
    }

    fn poll(&mut self, cx: &mut Context) -> (r: Poll)
        ensures
            final(cx).spec_waker() == old(cx).spec_waker(),
            old(self).spec_pending_once() ==> {
                &&& r == Poll::Pending
                &&& !final(self).spec_pending_once()
                &&& final(cx).spec_wakes() == old(cx).spec_wakes() + 1
            },
            !old(self).spec_pending_once() ==> {
                &&& r == Poll::Ready
                &&& !final(self).spec_pending_once()
                &&& final(cx).spec_wakes() == old(cx).spec_wakes()
            },
    {
        if self.pending_once {
            self.pending_once = false;
            cx.wake_by_ref();
            Poll::Pending
        } else {
            Poll::Ready
        }
    }
}

} // verus!
