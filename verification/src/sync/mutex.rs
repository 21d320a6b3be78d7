//! Mutexes in two variants: one whose waiters keep retrying, one whose
//! waiters sleep until the lock is handed to them.

use crate::sync::queue::{
    lemma_push_distinct, lemma_remove_value_distinct, position_of, remove_first, to_vec,
};
use std::collections::VecDeque;
use vstd::prelude::*;

verus! {

/// How a call of [`Mutex::lock`] ended for the calling task.
#[derive(Clone, Copy, Debug, PartialEq, Eq, Structural)]
pub enum LockStep {
    /// The caller owns the mutex.
    Acquired,
    /// The mutex is held.  The caller is on the wait list; it has to give up
    /// the processor and call `lock` again when it next runs.
    Retry,
    /// The mutex is held.  The caller is queued and has to sleep; the
    /// `unlock` that wakes it makes it the owner.
    Blocked,
}

/// The state of a mutex.
pub struct MutexView {
    /// Whether waiters sleep (`true`) or keep retrying (`false`).
    pub blocking: bool,
    pub locked: bool,
    /// The task that holds the mutex.
    pub owner: Option<usize>,
    /// The tasks that wait for the mutex, longest wait first.
    pub wait_queue: Seq<usize>,
}

impl MutexView {
    /// A mutex is locked exactly when it has an owner.  A free blocking
    /// mutex has no waiters; the wait list of a spin mutex names no task
    /// twice.
    pub open spec fn wf(self) -> bool {
        &&& self.locked <==> self.owner.is_some()
        &&& if self.blocking {
            !self.locked ==> self.wait_queue.len() == 0
        } else {
            self.wait_queue.no_duplicates()
        }
    }

    /// No task waits twice and the owner does not wait.
    pub open spec fn waiters_apart(self) -> bool {
        &&& self.wait_queue.no_duplicates()
        &&& self.owner matches Some(owner) ==> !self.wait_queue.contains(owner)
    }

    /// A new mutex: free, with nobody waiting.
    pub open spec fn fresh(blocking: bool) -> MutexView {
        MutexView { blocking, locked: false, owner: None, wait_queue: Seq::empty() }
    }

    /// The state after `current` has called `lock`.
    ///
    /// A free mutex goes to `current`, which leaves the wait list of a spin
    /// mutex as it does.  On a held mutex `current` joins the waiters: at the
    /// back of the queue of a blocking mutex, and on the list of a spin
    /// mutex unless it is there already.
    pub open spec fn lock(self, current: usize) -> MutexView {
        if !self.locked {
            MutexView {
                locked: true,
                owner: Some(current),
                wait_queue: if self.blocking {
                    self.wait_queue
                } else {
                    self.wait_queue.remove_value(current)
                },
                ..self
            }
        } else if self.blocking || !self.wait_queue.contains(current) {
            MutexView { wait_queue: self.wait_queue.push(current), ..self }
        } else {
            self
        }
    }

    /// What `lock` tells its caller.
    pub open spec fn lock_step(self) -> LockStep {
        if !self.locked {
            LockStep::Acquired
        } else if self.blocking {
            LockStep::Blocked
        } else {
            LockStep::Retry
        }
    }

    /// The state after `unlock`.
    ///
    /// A blocking mutex with waiters stays locked and passes to the waiter
    /// at the front of the queue.  Any other mutex becomes free; the wait
    /// list of a spin mutex is left as it is.
    pub open spec fn unlock(self) -> MutexView {
        if self.blocking && self.wait_queue.len() > 0 {
            MutexView {
                locked: true,
                owner: Some(self.wait_queue[0]),
                wait_queue: self.wait_queue.drop_first(),
                ..self
            }
        } else {
            MutexView { locked: false, owner: None, ..self }
        }
    }

    /// The task that `unlock` wakes.
    pub open spec fn woken(self) -> Option<usize> {
        if self.blocking && self.wait_queue.len() > 0 {
            Some(self.wait_queue[0])
        } else {
            None
        }
    }
}

/// `lock` keeps a mutex well formed.
pub proof fn lemma_lock_preserves_wf(m: MutexView, current: usize)
    requires
        m.wf(),
    ensures
        m.lock(current).wf(),
        m.lock(current).blocking == m.blocking,
{
    if !m.blocking {
        if !m.locked {
            lemma_remove_value_distinct(m.wait_queue, current);
        } else if !m.wait_queue.contains(current) {
            lemma_push_distinct(m.wait_queue, current);
        }
    }
}

/// `unlock` keeps a mutex well formed.
pub proof fn lemma_unlock_preserves_wf(m: MutexView)
    requires
        m.wf(),
    ensures
        m.unlock().wf(),
        m.unlock().blocking == m.blocking,
{
}

/// Releasing a blocking mutex on which a task waits never shows the mutex
/// free: it stays locked and belongs to the task that is woken, so a lock
/// call that comes before that task runs again queues up behind it.
pub proof fn lemma_handoff_stays_locked(m: MutexView, late: usize)
    requires
        m.wf(),
        m.blocking,
        m.wait_queue.len() > 0,
    ensures
        m.unlock().locked,
        m.unlock().owner == m.woken(),
        m.woken() == Some(m.wait_queue[0]),
        m.unlock().lock_step() == LockStep::Blocked,
        m.unlock().lock(late).owner == m.woken(),
        m.unlock().lock(late).wait_queue == m.wait_queue.drop_first().push(late),
{
}

/// While no task asks for a mutex that it holds, and no task that sleeps
/// for a blocking mutex asks for it again, every waiter waits once and the
/// owner is not among the waiters.
pub proof fn lemma_lock_keeps_waiters_apart(m: MutexView, current: usize)
    requires
        m.wf(),
        m.waiters_apart(),
        m.owner != Some(current),
        m.blocking ==> !m.wait_queue.contains(current),
    ensures
        m.lock(current).waiters_apart(),
{
    let after = m.lock(current);
    if !m.locked {
        if !m.blocking {
            lemma_remove_value_distinct(m.wait_queue, current);
        }
    } else if !m.wait_queue.contains(current) {
        lemma_push_distinct(m.wait_queue, current);
        let owner = m.owner.unwrap();
        if after.wait_queue.contains(owner) {
            let i = choose|i: int| 0 <= i < after.wait_queue.len() && after.wait_queue[i] == owner;
            if i < m.wait_queue.len() {
                assert(m.wait_queue[i] == owner);
            }
        }
    }
}

/// `unlock` keeps the waiters apart: the task that a blocking mutex
/// passes to has left the queue.
pub proof fn lemma_unlock_keeps_waiters_apart(m: MutexView)
    requires
        m.wf(),
        m.waiters_apart(),
    ensures
        m.unlock().waiters_apart(),
{
    let after = m.unlock();
    if m.blocking && m.wait_queue.len() > 0 {
        assert forall|i: int, j: int|
            0 <= i < after.wait_queue.len() && 0 <= j < after.wait_queue.len() && i
                != j implies after.wait_queue[i] != after.wait_queue[j] by {
            assert(after.wait_queue[i] == m.wait_queue[i + 1]);
            assert(after.wait_queue[j] == m.wait_queue[j + 1]);
        }
        if after.wait_queue.contains(m.wait_queue[0]) {
            let i = choose|i: int|
                0 <= i < after.wait_queue.len() && after.wait_queue[i] == m.wait_queue[0];
            assert(after.wait_queue[i] == m.wait_queue[i + 1]);
        }
    }
}

/// A waiter on a spin mutex that tries again once the mutex has been given
/// up gets it and leaves the wait list.
pub proof fn lemma_retry_after_unlock(m: MutexView, waiter: usize)
    requires
        m.wf(),
        !m.blocking,
    ensures
        m.unlock().lock_step() == LockStep::Acquired,
        m.unlock().lock(waiter).owner == Some(waiter),
        m.unlock().lock(waiter).locked,
        !m.unlock().lock(waiter).wait_queue.contains(waiter),
        m.unlock().lock(waiter).wf(),
{
    lemma_remove_value_distinct(m.wait_queue, waiter);
}

/// A task that finds a spin mutex held is on the wait list afterwards, and
/// is there once, however often it tries.
pub proof fn lemma_spin_waits_once(m: MutexView, current: usize)
    requires
        m.wf(),
        !m.blocking,
        m.locked,
    ensures
        m.lock(current).wait_queue.contains(current),
        m.lock(current).wait_queue.no_duplicates(),
        m.lock(current).lock(current) == m.lock(current),
{
    lemma_lock_preserves_wf(m, current);
    if !m.wait_queue.contains(current) {
        let after = m.wait_queue.push(current);
        assert(after[after.len() - 1] == current);
    }
}

/// A call on a mutex; `Lock` names the task that makes it.
pub enum MutexCall {
    Lock(usize),
    Unlock,
}

impl MutexView {
    /// The state after one call.
    pub open spec fn step(self, call: MutexCall) -> MutexView {
        match call {
            MutexCall::Lock(task) => self.lock(task),
            MutexCall::Unlock => self.unlock(),
        }
    }

    /// The state after a run of calls, first call first.
    pub open spec fn after(self, calls: Seq<MutexCall>) -> MutexView
        decreases calls.len(),
    {
        if calls.len() == 0 {
            self
        } else {
            self.after(calls.drop_last()).step(calls.last())
        }
    }
}

impl MutexView {
    /// In a run of calls no task asks for the mutex while it holds it, and
    /// no task asks for a blocking mutex while it sleeps for it.
    pub open spec fn callers_are_free(self, calls: Seq<MutexCall>) -> bool
        decreases calls.len(),
    {
        if calls.len() == 0 {
            true
        } else {
            let before = self.after(calls.drop_last());
            &&& self.callers_are_free(calls.drop_last())
            &&& match calls.last() {
                MutexCall::Lock(task) => before.owner != Some(task) && (before.blocking
                    ==> !before.wait_queue.contains(task)),
                MutexCall::Unlock => true,
            }
        }
    }
}

/// Whatever is done to a new mutex, it stays well formed: it is locked
/// exactly while it has an owner, a free blocking mutex has no waiters, and
/// the wait list of a spin mutex names no task twice.
pub proof fn lemma_mutex_stays_well_formed(blocking: bool, calls: Seq<MutexCall>)
    ensures
        MutexView::fresh(blocking).after(calls).wf(),
        MutexView::fresh(blocking).after(calls).blocking == blocking,
    decreases calls.len(),
{
    if calls.len() > 0 {
        lemma_mutex_stays_well_formed(blocking, calls.drop_last());
        let before = MutexView::fresh(blocking).after(calls.drop_last());
        match calls.last() {
            MutexCall::Lock(task) => {
                lemma_lock_preserves_wf(before, task);
            },
            MutexCall::Unlock => {
                lemma_unlock_preserves_wf(before);
            },
        }
    }
}

/// As long as a task that holds a mutex or sleeps for it does not ask for
/// it, every waiter of the mutex waits once and the owner is not among the
/// waiters.
pub proof fn lemma_waiters_stay_apart(blocking: bool, calls: Seq<MutexCall>)
    requires
        MutexView::fresh(blocking).callers_are_free(calls),
    ensures
        MutexView::fresh(blocking).after(calls).waiters_apart(),
    decreases calls.len(),
{
    if calls.len() > 0 {
        lemma_waiters_stay_apart(blocking, calls.drop_last());
        lemma_mutex_stays_well_formed(blocking, calls.drop_last());
        let before = MutexView::fresh(blocking).after(calls.drop_last());
        match calls.last() {
            MutexCall::Lock(task) => {
                lemma_lock_keeps_waiters_apart(before, task);
            },
            MutexCall::Unlock => {
                lemma_unlock_keeps_waiters_apart(before);
            },
        }
    }
}

/// What both variants of mutex offer.
///
/// A mutex is well formed at all times: every method says so of the state
/// it finds and of the state it leaves.
pub trait Mutex: View<V = MutexView> {
    /// Takes the mutex for `current`, or puts `current` among the waiters.
    fn lock(&mut self, current: usize) -> (step: LockStep)
        ensures
            final(self)@ == old(self)@.lock(current),
            step == old(self)@.lock_step(),
            old(self)@.wf(),
            final(self)@.wf(),
    ;

    /// Gives the mutex up and names the task to wake, if any.
    ///
    /// A blocking mutex must be locked.
    fn unlock(&mut self) -> (woken: Option<usize>)
        requires
            old(self)@.blocking ==> old(self)@.locked,
        ensures
            final(self)@ == old(self)@.unlock(),
            woken == old(self)@.woken(),
            old(self)@.wf(),
            final(self)@.wf(),
    ;

    /// The tasks that wait for the mutex, longest wait first.
    fn get_wait_queue(&self) -> (queue: Vec<usize>)
        ensures
            queue@ == self@.wait_queue,
            self@.wf(),
    ;

    /// The task that holds the mutex.
    fn get_owner(&self) -> (owner: Option<usize>)
        ensures
            owner == self@.owner,
            self@.wf(),
    ;

    /// Whether the mutex is held.
    fn is_locked(&self) -> (locked: bool)
        ensures
            locked == self@.locked,
            self@.wf(),
    ;

    /// Whether waiters sleep rather than retry.
    fn is_blocking(&self) -> (blocking: bool)
        ensures
            blocking == self@.blocking,
            self@.wf(),
    ;
}

/// State of a spin mutex.
pub struct MutexSpinInner {
    locked: bool,
    owner: Option<usize>,
    wait_queue: Vec<usize>,
}

impl View for MutexSpinInner {
    type V = MutexView;

    closed spec fn view(&self) -> MutexView {
        MutexView {
            blocking: false,
            locked: self.locked,
            owner: self.owner,
            wait_queue: self.wait_queue@,
        }
    }
}

impl MutexSpinInner {
    /// The state of a free mutex with an empty wait list.
    fn idle() -> (inner: Self)
        ensures
            inner@ == MutexView::fresh(false),
    {
        MutexSpinInner { locked: false, owner: None, wait_queue: Vec::new() }
    }

    /// One attempt of `current` to take the mutex.
    fn lock(&mut self, current: usize) -> (step: LockStep)
        requires
            old(self)@.wf(),
        ensures
            final(self)@ == old(self)@.lock(current),
            step == old(self)@.lock_step(),
            final(self)@.wf(),
    {
        proof {
            lemma_lock_preserves_wf(self@, current);
        }
        if self.locked {
            if position_of(&self.wait_queue, current).is_none() {
                self.wait_queue.push(current);
            }
            LockStep::Retry
        } else {
            self.locked = true;
            self.owner = Some(current);
            remove_first(&mut self.wait_queue, current);
            LockStep::Acquired
        }
    }

    /// Gives the mutex up.  The wait list stays as it is.
    fn unlock(&mut self)
        requires
            old(self)@.wf(),
        ensures
            final(self)@ == old(self)@.unlock(),
            final(self)@.wf(),
    {
        self.locked = false;
        self.owner = None;
    }
}

/// A mutex whose waiters give up the processor and try again.
///
/// The wait list only records who is trying; nobody is woken from it.
pub struct MutexSpin {
    inner: MutexSpinInner,
}

impl View for MutexSpin {
    type V = MutexView;

    closed spec fn view(&self) -> MutexView {
        self.inner@
    }
}

impl MutexSpin {
    /// Holds of every mutex at all times.
    #[verifier::type_invariant]
    spec fn well_formed(&self) -> bool {
        self.inner@.wf()
    }

    /// A free spin mutex.
    pub fn new() -> (mutex: Self)
        ensures
            mutex@ == MutexView::fresh(false),
    {
        Self { inner: MutexSpinInner::idle() }
    }
}

impl Mutex for MutexSpin {
    fn lock(&mut self, current: usize) -> (step: LockStep) {
        proof {
            use_type_invariant(&*self);
        }
        let mut inner = MutexSpinInner::idle();
        std::mem::swap(&mut self.inner, &mut inner);
        let step = inner.lock(current);
        self.inner = inner;
        step
    }

    fn unlock(&mut self) -> (woken: Option<usize>) {
        proof {
            use_type_invariant(&*self);
        }
        let mut inner = MutexSpinInner::idle();
        std::mem::swap(&mut self.inner, &mut inner);
        inner.unlock();
        self.inner = inner;
        None
    }

    fn get_wait_queue(&self) -> (queue: Vec<usize>) {
        proof {
            use_type_invariant(self);
        }
        self.inner.wait_queue.clone()
    }

    fn get_owner(&self) -> (owner: Option<usize>) {
        proof {
            use_type_invariant(self);
        }
        self.inner.owner
    }

    fn is_locked(&self) -> (locked: bool) {
        proof {
            use_type_invariant(self);
        }
        self.inner.locked
    }

    fn is_blocking(&self) -> (blocking: bool) {
        proof {
            use_type_invariant(self);
        }
        false
    }
}

/// State of a blocking mutex.
pub struct MutexBlockingInner {
    locked: bool,
    wait_queue: VecDeque<usize>,
    owner: Option<usize>,
}

impl View for MutexBlockingInner {
    type V = MutexView;

    closed spec fn view(&self) -> MutexView {
        MutexView {
            blocking: true,
            locked: self.locked,
            owner: self.owner,
            wait_queue: self.wait_queue@,
        }
    }
}

impl MutexBlockingInner {
    /// The state of a free mutex with an empty queue.
    fn idle() -> (inner: Self)
        ensures
            inner@ == MutexView::fresh(true),
    {
        MutexBlockingInner { locked: false, wait_queue: VecDeque::new(), owner: None }
    }

    /// Takes the mutex for `current`, or queues `current` up.
    fn lock(&mut self, current: usize) -> (step: LockStep)
        requires
            old(self)@.wf(),
        ensures
            final(self)@ == old(self)@.lock(current),
            step == old(self)@.lock_step(),
            final(self)@.wf(),
    {
        if self.locked {
            self.wait_queue.push_back(current);
            LockStep::Blocked
        } else {
            self.owner = Some(current);
            self.locked = true;
            LockStep::Acquired
        }
    }

    /// Passes the mutex to the task at the front of the queue, or frees
    /// it where nobody waits.
    fn unlock(&mut self) -> (woken: Option<usize>)
        requires
            old(self)@.wf(),
            old(self)@.locked,
        ensures
            final(self)@ == old(self)@.unlock(),
            woken == old(self)@.woken(),
            final(self)@.wf(),
    {
        let waking = self.wait_queue.pop_front();
        match waking {
            Some(task) => {
                self.owner = Some(task);
            },
            None => {
                self.locked = false;
                self.owner = None;
            },
        }
        waking
    }
}

/// A mutex whose waiters sleep in a queue and are handed the lock in the
/// order in which they came.
pub struct MutexBlocking {
    inner: MutexBlockingInner,
}

impl View for MutexBlocking {
    type V = MutexView;

    closed spec fn view(&self) -> MutexView {
        self.inner@
    }
}

impl MutexBlocking {
    /// Holds of every mutex at all times.
    #[verifier::type_invariant]
    spec fn well_formed(&self) -> bool {
        self.inner@.wf()
    }

    /// A free blocking mutex.
    pub fn new() -> (mutex: Self)
        ensures
            mutex@ == MutexView::fresh(true),
    {
        Self { inner: MutexBlockingInner::idle() }
    }
}

impl Mutex for MutexBlocking {
    fn lock(&mut self, current: usize) -> (step: LockStep) {
        proof {
            use_type_invariant(&*self);
        }
        let mut inner = MutexBlockingInner::idle();
        std::mem::swap(&mut self.inner, &mut inner);
        let step = inner.lock(current);
        self.inner = inner;
        step
    }

    fn unlock(&mut self) -> (woken: Option<usize>) {
        proof {
            use_type_invariant(&*self);
        }
        let mut inner = MutexBlockingInner::idle();
        std::mem::swap(&mut self.inner, &mut inner);
        let woken = inner.unlock();
        self.inner = inner;
        woken
    }

    fn get_wait_queue(&self) -> (queue: Vec<usize>) {
        proof {
            use_type_invariant(self);
        }
        to_vec(&self.inner.wait_queue)
    }

    fn get_owner(&self) -> (owner: Option<usize>) {
        proof {
            use_type_invariant(self);
        }
        self.inner.owner
    }

    fn is_locked(&self) -> (locked: bool) {
        proof {
            use_type_invariant(self);
        }
        self.inner.locked
    }

    fn is_blocking(&self) -> (blocking: bool) {
        proof {
            use_type_invariant(self);
        }
        true
    }
}

/// A mutex of either variant, as the tables of a process hold it.
pub enum AnyMutex {
    Spin(MutexSpin),
    Blocking(MutexBlocking),
}

impl View for AnyMutex {
    type V = MutexView;

    open spec fn view(&self) -> MutexView {
        match self {
            AnyMutex::Spin(mutex) => mutex@,
            AnyMutex::Blocking(mutex) => mutex@,
        }
    }
}

impl AnyMutex {
    /// A free mutex of the variant asked for.
    pub fn new(blocking: bool) -> (mutex: Self)
        ensures
            mutex@ == MutexView::fresh(blocking),
    {
        if blocking {
            AnyMutex::Blocking(MutexBlocking::new())
        } else {
            AnyMutex::Spin(MutexSpin::new())
        }
    }
}

impl Mutex for AnyMutex {
    fn lock(&mut self, current: usize) -> (step: LockStep) {
        match self {
            AnyMutex::Spin(mutex) => mutex.lock(current),
            AnyMutex::Blocking(mutex) => mutex.lock(current),
        }
    }

    fn unlock(&mut self) -> (woken: Option<usize>) {
        match self {
            AnyMutex::Spin(mutex) => mutex.unlock(),
            AnyMutex::Blocking(mutex) => mutex.unlock(),
        }
    }

    fn get_wait_queue(&self) -> (queue: Vec<usize>) {
        match self {
            AnyMutex::Spin(mutex) => mutex.get_wait_queue(),
            AnyMutex::Blocking(mutex) => mutex.get_wait_queue(),
        }
    }

    fn get_owner(&self) -> (owner: Option<usize>) {
        match self {
            AnyMutex::Spin(mutex) => mutex.get_owner(),
            AnyMutex::Blocking(mutex) => mutex.get_owner(),
        }
    }

    fn is_locked(&self) -> (locked: bool) {
        match self {
            AnyMutex::Spin(mutex) => mutex.is_locked(),
            AnyMutex::Blocking(mutex) => mutex.is_locked(),
        }
    }

    fn is_blocking(&self) -> (blocking: bool) {
        match self {
            AnyMutex::Spin(mutex) => mutex.is_blocking(),
            AnyMutex::Blocking(mutex) => mutex.is_blocking(),
        }
    }
}

} // verus!
