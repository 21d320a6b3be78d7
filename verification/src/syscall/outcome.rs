//! What a system call hands back to the kernel.

use crate::sync::mutex::LockStep;
use vstd::prelude::*;

verus! {

/// Returned where the deadlock detector refuses a request.
pub const DEADLOCK: isize = -0xDEAD;

/// Returned where a call names a slot that holds nothing, or where the
/// detector finds an empty slot in the roster of threads.
pub const FAILURE: isize = -1;

/// How the calling task goes on.
#[derive(Clone, Copy, Debug, PartialEq, Eq, Structural)]
pub enum Next {
    /// It returns to its program.
    Return,
    /// It gives up the processor and returns when it is next scheduled.
    Yield,
    /// It is on the wait list of the spin mutex in slot `mutex_id`.  It
    /// gives up the processor and, when it is next scheduled, tries the
    /// mutex again without a second deadlock check.
    Retry { mutex_id: usize },
    /// It sleeps until another task's call names it in `wake`.  What it
    /// slept for is then its own.
    Block,
    /// It sleeps on a condition variable until a signal names it in `wake`,
    /// and then takes the mutex in slot `mutex_id` again, without a
    /// deadlock check, before it returns.
    BlockThenLock { mutex_id: usize },
    /// It sleeps until the clock shows `until` milliseconds.
    Sleep { until: usize },
    /// It ends.
    Exit,
}

/// The result of a system call.  The kernel first makes `wake` ready and
/// then lets the caller go on as `next` says.
#[derive(Clone, Copy, Debug, PartialEq, Eq, Structural)]
pub struct Outcome {
    /// The value that the call returns to the program.
    pub code: isize,
    /// The sleeping task that has to be made ready, if any.
    pub wake: Option<usize>,
    /// How the calling task goes on.
    pub next: Next,
}

/// How a task goes on after a call of `lock` on the mutex in slot
/// `mutex_id`.
pub open spec fn next_after_lock(step: LockStep, mutex_id: usize) -> Next {
    match step {
        LockStep::Acquired => Next::Return,
        LockStep::Retry => Next::Retry { mutex_id },
        LockStep::Blocked => Next::Block,
    }
}

impl Outcome {
    /// A call that is over and wakes nobody.
    pub open spec fn returned(code: isize) -> Outcome {
        Outcome { code, wake: None, next: Next::Return }
    }

    /// A call that is over and wakes nobody.
    pub fn done(code: isize) -> (outcome: Outcome)
        ensures
            outcome == Outcome::returned(code),
    {
        Outcome { code, wake: None, next: Next::Return }
    }
}

} // verus!
