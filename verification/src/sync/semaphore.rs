//! Counting semaphores that remember who holds their units.

use crate::sync::queue::{
    lemma_occurrences_push, lemma_remove_value, occurrences, remove_first, to_vec,
};
use std::collections::VecDeque;
use vstd::prelude::*;

verus! {

/// The state of a semaphore.
pub struct SemaphoreView {
    /// Free units while positive; the number of sleeping tasks, negated,
    /// while negative.
    pub count: int,
    /// The tasks that sleep in `down`, longest wait first.
    pub wait_queue: Seq<usize>,
    /// One entry for every unit that is out: the task that holds it.  A task
    /// that holds several units occurs several times.
    pub alloc_queue: Seq<usize>,
}

impl SemaphoreView {
    /// Tasks sleep only while `count` is negative, and then `count` tells
    /// how many.
    pub open spec fn wf(self) -> bool {
        &&& isize::MIN <= self.count <= isize::MAX
        &&& self.count >= 0 ==> self.wait_queue.len() == 0
        &&& self.count < 0 ==> -self.count == self.wait_queue.len()
    }

    /// A new semaphore with `units` free units.
    pub open spec fn fresh(units: int) -> SemaphoreView {
        SemaphoreView { count: units, wait_queue: Seq::empty(), alloc_queue: Seq::empty() }
    }

    /// Whether `down` puts its caller to sleep.
    pub open spec fn down_blocks(self) -> bool {
        self.count <= 0
    }

    /// The state after `current` has called `down`: the count is one lower;
    /// `current` holds a unit if one was free and waits at the back of the
    /// queue if none was.
    pub open spec fn down(self, current: usize) -> SemaphoreView {
        if self.down_blocks() {
            SemaphoreView {
                count: self.count - 1,
                wait_queue: self.wait_queue.push(current),
                ..self
            }
        } else {
            SemaphoreView {
                count: self.count - 1,
                alloc_queue: self.alloc_queue.push(current),
                ..self
            }
        }
    }

    /// The task that `up` wakes.
    pub open spec fn woken(self) -> Option<usize> {
        if self.count < 0 && self.wait_queue.len() > 0 {
            Some(self.wait_queue[0])
        } else {
            None
        }
    }

    /// The state after `current` has called `up`: the count is one higher
    /// and the oldest unit recorded for `current`, if there is one, is taken
    /// off the books.  Where tasks sleep, the one at the front of the queue
    /// leaves it and is recorded as a holder.
    pub open spec fn up(self, current: usize) -> SemaphoreView {
        let held = self.alloc_queue.remove_value(current);
        match self.woken() {
            Some(task) => SemaphoreView {
                count: self.count + 1,
                wait_queue: self.wait_queue.drop_first(),
                alloc_queue: held.push(task),
            },
            None => SemaphoreView { count: self.count + 1, alloc_queue: held, ..self },
        }
    }

    /// The books balance for a semaphore made with `initial` units: the
    /// count, with every sleeping task added back, is what the holders have
    /// left of `initial`.
    pub open spec fn balanced(self, initial: int) -> bool {
        self.count + self.wait_queue.len() == initial - self.alloc_queue.len()
    }
}

/// `down` keeps a semaphore well formed while the count stays in range.
pub proof fn lemma_down_preserves_wf(s: SemaphoreView, current: usize)
    requires
        s.wf(),
        s.count > isize::MIN,
    ensures
        s.down(current).wf(),
{
}

/// `up` keeps a semaphore well formed while the count stays in range.
pub proof fn lemma_up_preserves_wf(s: SemaphoreView, current: usize)
    requires
        s.wf(),
        s.count < isize::MAX,
    ensures
        s.up(current).wf(),
{
}

/// The books of a new semaphore balance.
pub proof fn lemma_fresh_balanced(units: int)
    ensures
        SemaphoreView::fresh(units).balanced(units),
{
}

/// `down` keeps the books balanced, whether the caller gets a unit or
/// goes to sleep.
pub proof fn lemma_down_balanced(s: SemaphoreView, current: usize, initial: int)
    requires
        s.balanced(initial),
    ensures
        s.down(current).balanced(initial),
{
}

/// `up` keeps the books balanced when it is called by a task that holds a
/// unit.
pub proof fn lemma_up_balanced(s: SemaphoreView, current: usize, initial: int)
    requires
        s.wf(),
        s.balanced(initial),
        s.alloc_queue.contains(current),
    ensures
        s.up(current).balanced(initial),
{
    s.alloc_queue.index_of_first_ensures(current);
}

/// An `up` by a task that holds no unit adds a unit to the semaphore: the
/// books are then those of a semaphore made with one unit more.
pub proof fn lemma_up_without_unit(s: SemaphoreView, current: usize, initial: int)
    requires
        s.wf(),
        s.balanced(initial),
        !s.alloc_queue.contains(current),
    ensures
        s.up(current).balanced(initial + 1),
{
    s.alloc_queue.index_of_first_ensures(current);
}

/// A `down` that finds a unit, followed by the holder's `up`, restores the
/// count and the waiters and leaves no unit on the books that was not
/// there before.
pub proof fn lemma_down_up_round_trip(s: SemaphoreView, current: usize)
    requires
        s.wf(),
        !s.down_blocks(),
        !s.alloc_queue.contains(current),
    ensures
        s.down(current).up(current) == s,
{
    let taken = s.down(current);
    let last = s.alloc_queue.len() as int;
    assert(taken.alloc_queue[last] == current);
    taken.alloc_queue.index_of_first_ensures(current);
    let p = taken.alloc_queue.index_of_first(current).unwrap();
    if p < last {
        assert(s.alloc_queue[p] == current);
    }
    assert(taken.alloc_queue.remove(p) =~= s.alloc_queue);
}

/// What `down` and `up` do to the number of units that a task `tid` has
/// on the books: a `down` that finds a unit adds one for the caller; an
/// `up` takes one off for the caller, if it has any, and adds one for the
/// task it wakes.
pub proof fn lemma_units_on_the_books(s: SemaphoreView, current: usize, tid: usize)
    ensures
        occurrences(s.down(current).alloc_queue, tid) == occurrences(s.alloc_queue, tid) + if tid
            == current && !s.down_blocks() {
            1nat
        } else {
            0nat
        },
        occurrences(s.up(current).alloc_queue, tid) + (if tid == current && s.alloc_queue.contains(
            current,
        ) {
            1nat
        } else {
            0nat
        }) == occurrences(s.alloc_queue, tid) + if s.woken() == Some(tid) {
            1nat
        } else {
            0nat
        },
{
    lemma_occurrences_push(s.alloc_queue, current, tid);
    lemma_remove_value(s.alloc_queue, current, tid);
    match s.woken() {
        Some(task) => {
            lemma_occurrences_push(s.alloc_queue.remove_value(current), task, tid);
        },
        None => {},
    }
}

/// Once every unit is back and nobody sleeps, the count is what the
/// semaphore was made with.
pub proof fn lemma_idle_count(s: SemaphoreView, initial: int)
    requires
        s.balanced(initial),
        s.wait_queue.len() == 0,
        s.alloc_queue.len() == 0,
    ensures
        s.count == initial,
{
}

/// A call on a semaphore, with the task that makes it.
pub enum SemaphoreCall {
    Down(usize),
    Up(usize),
}

impl SemaphoreView {
    /// The state after one call.
    pub open spec fn step(self, call: SemaphoreCall) -> SemaphoreView {
        match call {
            SemaphoreCall::Down(task) => self.down(task),
            SemaphoreCall::Up(task) => self.up(task),
        }
    }

    /// The state after a run of calls, first call first.
    pub open spec fn after(self, calls: Seq<SemaphoreCall>) -> SemaphoreView
        decreases calls.len(),
    {
        if calls.len() == 0 {
            self
        } else {
            self.after(calls.drop_last()).step(calls.last())
        }
    }

    /// In a run of calls every `up` is made by a task that holds a unit at
    /// that moment, and no call takes the count out of the range of an
    /// `isize`.
    pub open spec fn holders_give_back(self, calls: Seq<SemaphoreCall>) -> bool
        decreases calls.len(),
    {
        if calls.len() == 0 {
            true
        } else {
            let before = self.after(calls.drop_last());
            &&& self.holders_give_back(calls.drop_last())
            &&& match calls.last() {
                SemaphoreCall::Down(_) => before.count > isize::MIN,
                SemaphoreCall::Up(task) => before.alloc_queue.contains(task) && before.count
                    < isize::MAX,
            }
        }
    }
}

/// However tasks take units of a semaphore and give them back, as long as
/// only holders give back: the semaphore stays well formed and its books
/// stay balanced.  When at last no unit is out and nobody sleeps, the
/// count is what the semaphore was made with.
pub proof fn lemma_books_stay_balanced(units: int, calls: Seq<SemaphoreCall>)
    requires
        0 <= units <= isize::MAX,
        SemaphoreView::fresh(units).holders_give_back(calls),
    ensures
        SemaphoreView::fresh(units).after(calls).wf(),
        SemaphoreView::fresh(units).after(calls).balanced(units),
        ({
            let last = SemaphoreView::fresh(units).after(calls);
            last.alloc_queue.len() == 0 && last.wait_queue.len() == 0 ==> last.count == units
        }),
    decreases calls.len(),
{
    if calls.len() > 0 {
        lemma_books_stay_balanced(units, calls.drop_last());
        let before = SemaphoreView::fresh(units).after(calls.drop_last());
        match calls.last() {
            SemaphoreCall::Down(task) => {
                lemma_down_preserves_wf(before, task);
                lemma_down_balanced(before, task, units);
            },
            SemaphoreCall::Up(task) => {
                lemma_up_preserves_wf(before, task);
                lemma_up_balanced(before, task, units);
            },
        }
    }
}

/// State of a semaphore.
pub struct SemaphoreInner {
    count: isize,
    wait_queue: VecDeque<usize>,
    alloc_queue: Vec<usize>,
}

impl View for SemaphoreInner {
    type V = SemaphoreView;

    closed spec fn view(&self) -> SemaphoreView {
        SemaphoreView {
            count: self.count as int,
            wait_queue: self.wait_queue@,
            alloc_queue: self.alloc_queue@,
        }
    }
}

impl SemaphoreInner {
    /// The state of a semaphore with `units` free units and empty queues.
    fn with_units(units: isize) -> (inner: Self)
        requires
            units >= 0,
        ensures
            inner@ == SemaphoreView::fresh(units as int),
    {
        SemaphoreInner { count: units, wait_queue: VecDeque::new(), alloc_queue: Vec::new() }
    }

    /// Takes a unit of `current` off the books, raises the count and
    /// passes a unit to the task at the front of the queue, if any.
    fn up(&mut self, current: usize) -> (woken: Option<usize>)
        requires
            old(self)@.wf(),
            old(self)@.count < isize::MAX,
        ensures
            final(self)@ == old(self)@.up(current),
            woken == old(self)@.woken(),
            final(self)@.wf(),
    {
        remove_first(&mut self.alloc_queue, current);
        self.count += 1;
        if self.count <= 0 {
            let waking = self.wait_queue.pop_front();
            if let Some(task) = waking {
                self.alloc_queue.push(task);
            }
            waking
        } else {
            None
        }
    }

    /// Lowers the count and records `current` as a holder or as a
    /// waiter.
    fn down(&mut self, current: usize) -> (blocked: bool)
        requires
            old(self)@.wf(),
            old(self)@.count > isize::MIN,
        ensures
            final(self)@ == old(self)@.down(current),
            blocked == old(self)@.down_blocks(),
            final(self)@.wf(),
    {
        self.count -= 1;
        if self.count < 0 {
            self.wait_queue.push_back(current);
            true
        } else {
            self.alloc_queue.push(current);
            false
        }
    }
}

/// A counting semaphore.
pub struct Semaphore {
    inner: SemaphoreInner,
}

impl View for Semaphore {
    type V = SemaphoreView;

    closed spec fn view(&self) -> SemaphoreView {
        self.inner@
    }
}

impl Semaphore {
    /// Holds of every semaphore at all times.
    #[verifier::type_invariant]
    spec fn well_formed(&self) -> bool {
        self.inner@.wf()
    }

    /// A semaphore with `res_count` free units.
    pub fn new(res_count: usize) -> (semaphore: Self)
        requires
            res_count <= isize::MAX,
        ensures
            semaphore@ == SemaphoreView::fresh(res_count as int),
    {
        Self { inner: SemaphoreInner::with_units(res_count as isize) }
    }

    /// Gives a unit back and names the task to wake, if any.
    pub fn up(&mut self, current: usize) -> (woken: Option<usize>)
        requires
            old(self)@.count < isize::MAX,
        ensures
            final(self)@ == old(self)@.up(current),
            woken == old(self)@.woken(),
            old(self)@.wf(),
            final(self)@.wf(),
    {
        proof {
            use_type_invariant(&*self);
        }
        let mut inner = SemaphoreInner::with_units(0);
        std::mem::swap(&mut self.inner, &mut inner);
        let woken = inner.up(current);
        self.inner = inner;
        woken
    }

    /// Asks for a unit and says whether the caller has to sleep for it.
    pub fn down(&mut self, current: usize) -> (blocked: bool)
        requires
            old(self)@.count > isize::MIN,
        ensures
            final(self)@ == old(self)@.down(current),
            blocked == old(self)@.down_blocks(),
            old(self)@.wf(),
            final(self)@.wf(),
    {
        proof {
            use_type_invariant(&*self);
        }
        let mut inner = SemaphoreInner::with_units(0);
        std::mem::swap(&mut self.inner, &mut inner);
        let blocked = inner.down(current);
        self.inner = inner;
        blocked
    }

    /// The count: free units while positive, sleeping tasks while negative.
    pub fn count(&self) -> (count: isize)
        ensures
            count == self@.count,
            self@.wf(),
    {
        proof {
            use_type_invariant(self);
        }
        self.inner.count
    }

    /// The tasks that sleep in `down`, longest wait first.
    pub fn get_wait_queue(&self) -> (queue: Vec<usize>)
        ensures
            queue@ == self@.wait_queue,
            self@.wf(),
    {
        proof {
            use_type_invariant(self);
        }
        to_vec(&self.inner.wait_queue)
    }

    /// The holders, one entry for every unit that is out.
    pub fn get_alloc_queue(&self) -> (queue: Vec<usize>)
        ensures
            queue@ == self@.alloc_queue,
            self@.wf(),
    {
        proof {
            use_type_invariant(self);
        }
        self.inner.alloc_queue.clone()
    }
}

} // verus!
