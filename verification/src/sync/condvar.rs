//! Condition variables.

use crate::sync::mutex::Mutex;
use crate::sync::queue::to_vec;
use std::collections::VecDeque;
use vstd::prelude::*;

verus! {

/// State of a condition variable.
pub struct CondvarInner {
    wait_queue: VecDeque<usize>,
}

/// A condition variable.  Its view is the queue of the tasks that wait on
/// it, longest wait first.
pub struct Condvar {
    inner: CondvarInner,
}

impl View for Condvar {
    type V = Seq<usize>;

    closed spec fn view(&self) -> Seq<usize> {
        self.inner.wait_queue@
    }
}

/// The task that `signal` wakes from `queue`.
pub open spec fn signalled(queue: Seq<usize>) -> Option<usize> {
    if queue.len() > 0 {
        Some(queue[0])
    } else {
        None
    }
}

/// What `signal` leaves of `queue`.
pub open spec fn after_signal(queue: Seq<usize>) -> Seq<usize> {
    if queue.len() > 0 {
        queue.drop_first()
    } else {
        queue
    }
}

impl Condvar {
    /// A condition variable on which nobody waits.
    pub fn new() -> (condvar: Self)
        ensures
            condvar@ == Seq::<usize>::empty(),
    {
        Self { inner: CondvarInner { wait_queue: VecDeque::new() } }
    }

    /// Takes the task that has waited longest out of the queue and names it
    /// for waking.  Without waiters nothing happens.
    pub fn signal(&mut self) -> (woken: Option<usize>)
        ensures
            woken == signalled(old(self)@),
            final(self)@ == after_signal(old(self)@),
    {
        self.inner.wait_queue.pop_front()
    }

    /// Queues `current` and releases `mutex`.  Returns the task that the
    /// release wakes.
    ///
    /// The caller then has to sleep until a `signal` names it, and to take
    /// `mutex` again before it goes on.
    pub fn wait<M: Mutex>(&mut self, current: usize, mutex: &mut M) -> (woken: Option<usize>)
        requires
            old(mutex)@.blocking ==> old(mutex)@.locked,
        ensures
            final(self)@ == old(self)@.push(current),
            final(mutex)@ == old(mutex)@.unlock(),
            woken == old(mutex)@.woken(),
            old(mutex)@.wf(),
            final(mutex)@.wf(),
    {
        self.inner.wait_queue.push_back(current);
        mutex.unlock()
    }

    /// The tasks that wait, longest wait first.
    pub fn get_wait_queue(&self) -> (queue: Vec<usize>)
        ensures
            queue@ == self@,
    {
        to_vec(&self.inner.wait_queue)
    }
}

} // verus!
