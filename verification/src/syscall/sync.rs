//! Calls on the synchronisation primitives of a process.

use crate::detector::demand::all_present;
use crate::process::{first_free, is_first_free, placed, Process, ProcessView};
use crate::sync::condvar::{after_signal, signalled};
use crate::sync::mutex::{LockStep, Mutex, MutexView};
use crate::sync::semaphore::SemaphoreView;
use crate::syscall::outcome::{next_after_lock, Next, Outcome, DEADLOCK, FAILURE};
use vstd::prelude::*;

verus! {

/// The task sleeps for `ms` milliseconds from `now_ms`, the time on the
/// clock at the call.
pub fn sys_sleep(now_ms: usize, ms: usize) -> (outcome: Outcome)
    requires
        now_ms + ms <= usize::MAX,
    ensures
        outcome == (Outcome {
            code: 0,
            wake: None,
            next: Next::Sleep { until: (now_ms + ms) as usize },
        }),
{
    Outcome { code: 0, wake: None, next: Next::Sleep { until: now_ms + ms } }
}

/// Makes a mutex, blocking or spinning, in the lowest empty slot of the
/// table, or in a new slot at its end, and returns the slot's number.
pub fn sys_mutex_create(process: &mut Process, blocking: bool) -> (id: isize)
    ensures
        is_first_free(old(process)@.mutexes, first_free(old(process)@.mutexes)),
        id == first_free(old(process)@.mutexes) as isize,
        final(process)@ == (ProcessView {
            mutexes: placed(old(process)@.mutexes, MutexView::fresh(blocking)),
            ..old(process)@
        }),
{
    let id = process.create_mutex(blocking);
    #[verifier::truncate]
    (id as isize)
}

/// What `sys_mutex_lock` returns: `FAILURE` for a slot without a mutex;
/// with detection on, `FAILURE` for a roster with an empty slot and
/// `DEADLOCK` where the request leaves no order in which every thread can
/// finish; else 0.
pub open spec fn mutex_lock_code(process: ProcessView, current: usize, mutex_id: usize) -> isize {
    if !process.has_mutex(mutex_id) {
        FAILURE
    } else if !process.detect_enable {
        0
    } else if !all_present(process.tasks) {
        FAILURE
    } else if !process.mutex_demand(current, mutex_id).safe() {
        DEADLOCK
    } else {
        0
    }
}

/// Task `current` tries the mutex in slot `mutex_id` without a deadlock
/// check: the first attempt of a lock call that the detector has let
/// pass, every further attempt on a spin mutex, and the taking back of the
/// mutex after a wait on a condition variable.
pub fn retry_mutex_lock(
    process: &mut Process,
    current: usize,
    mutex_id: usize,
) -> (outcome: Outcome)
    ensures
        !old(process)@.has_mutex(mutex_id) ==> {
            &&& outcome == Outcome::returned(FAILURE)
            &&& final(process)@ == old(process)@
        },
        old(process)@.has_mutex(mutex_id) ==> {
            let mutex = old(process)@.mutex(mutex_id);
            &&& mutex.wf()
            &&& mutex.lock(current).wf()
            &&& final(process)@ == old(process)@.with_mutex(mutex_id, mutex.lock(current))
            &&& outcome == (Outcome {
                code: 0,
                wake: None,
                next: next_after_lock(mutex.lock_step(), mutex_id),
            })
        },
{
    if mutex_id >= process.mutex_list.len() {
        return Outcome::done(FAILURE);
    }
    let step = match &mut process.mutex_list[mutex_id] {
        Some(mutex) => mutex.lock(current),
        None => {
            assert(process.mutex_list@ =~= old(process).mutex_list@);
            return Outcome::done(FAILURE);
        },
    };
    proof {
        let mutex = old(process)@.mutex(mutex_id);
        assert(process@.mutexes =~= old(process)@.mutexes.update(
            mutex_id as int,
            Some(mutex.lock(current)),
        ));
    }
    Outcome {
        code: 0,
        wake: None,
        next: match step {
            LockStep::Acquired => Next::Return,
            LockStep::Retry => Next::Retry { mutex_id },
            LockStep::Blocked => Next::Block,
        },
    }
}

/// Task `current` asks for the mutex in slot `mutex_id`.
///
/// With detection on, the request is first examined as if it were already
/// waiting.  A request that is refused changes nothing.
pub fn sys_mutex_lock(process: &mut Process, current: usize, mutex_id: usize) -> (outcome: Outcome)
    ensures
        outcome.code == mutex_lock_code(old(process)@, current, mutex_id),
        outcome.code == DEADLOCK ==> final(process)@ == old(process)@,
        outcome.code != 0 ==> {
            &&& outcome == Outcome::returned(outcome.code)
            &&& final(process)@ == old(process)@
        },
        outcome.code == 0 ==> {
            let mutex = old(process)@.mutex(mutex_id);
            &&& mutex.lock(current).wf()
            &&& final(process)@ == old(process)@.with_mutex(mutex_id, mutex.lock(current))
            &&& outcome.wake.is_none()
            &&& outcome.next == next_after_lock(mutex.lock_step(), mutex_id)
        },
        old(process)@.has_mutex(mutex_id) ==> old(process)@.mutex(mutex_id).wf(),
{
    if process.mutex(mutex_id).is_none() {
        return Outcome::done(FAILURE);
    }
    if process.detect_enable {
        match process.mutex_demand(current, mutex_id) {
            None => {
                return Outcome::done(FAILURE);
            },
            Some(demand) => {
                if !demand.is_safe() {
                    return Outcome::done(DEADLOCK);
                }
            },
        }
    }
    retry_mutex_lock(process, current, mutex_id)
}

/// The mutex in slot `mutex_id` is given up.
///
/// Where tasks sleep for a blocking mutex, the one that has waited longest
/// is named in `wake`; the mutex stays locked and is now its own.  A
/// blocking mutex must be locked.
pub fn sys_mutex_unlock(process: &mut Process, mutex_id: usize) -> (outcome: Outcome)
    requires
        old(process)@.has_mutex(mutex_id) && old(process)@.mutex(mutex_id).blocking
            ==> old(process)@.mutex(mutex_id).locked,
    ensures
        !old(process)@.has_mutex(mutex_id) ==> {
            &&& outcome == Outcome::returned(FAILURE)
            &&& final(process)@ == old(process)@
        },
        old(process)@.has_mutex(mutex_id) ==> {
            let mutex = old(process)@.mutex(mutex_id);
            &&& mutex.wf()
            &&& mutex.unlock().wf()
            &&& final(process)@ == old(process)@.with_mutex(mutex_id, mutex.unlock())
            &&& outcome == (Outcome { code: 0, wake: mutex.woken(), next: Next::Return })
        },
{
    if mutex_id >= process.mutex_list.len() {
        return Outcome::done(FAILURE);
    }
    let woken = match &mut process.mutex_list[mutex_id] {
        Some(mutex) => mutex.unlock(),
        None => {
            assert(process.mutex_list@ =~= old(process).mutex_list@);
            return Outcome::done(FAILURE);
        },
    };
    proof {
        let mutex = old(process)@.mutex(mutex_id);
        assert(process@.mutexes =~= old(process)@.mutexes.update(
            mutex_id as int,
            Some(mutex.unlock()),
        ));
    }
    Outcome { code: 0, wake: woken, next: Next::Return }
}

/// Makes a semaphore with `res_count` free units in the lowest empty slot
/// of the table, or in a new slot at its end, and returns the slot's
/// number.
pub fn sys_semaphore_create(process: &mut Process, res_count: usize) -> (id: isize)
    requires
        res_count <= isize::MAX,
    ensures
        is_first_free(old(process)@.semaphores, first_free(old(process)@.semaphores)),
        id == first_free(old(process)@.semaphores) as isize,
        final(process)@ == (ProcessView {
            semaphores: placed(old(process)@.semaphores, SemaphoreView::fresh(res_count as int)),
            ..old(process)@
        }),
{
    let id = process.create_semaphore(res_count);
    #[verifier::truncate]
    (id as isize)
}

/// Task `current` gives a unit of the semaphore in slot `sem_id` back.
///
/// The oldest unit recorded for `current` leaves the books.  Where tasks
/// sleep for a unit, the one that has waited longest gets it and is named
/// in `wake`.
pub fn sys_semaphore_up(process: &mut Process, current: usize, sem_id: usize) -> (outcome: Outcome)
    requires
        old(process)@.has_semaphore(sem_id) ==> old(process)@.semaphore(sem_id).count < isize::MAX,
    ensures
        !old(process)@.has_semaphore(sem_id) ==> {
            &&& outcome == Outcome::returned(FAILURE)
            &&& final(process)@ == old(process)@
        },
        old(process)@.has_semaphore(sem_id) ==> {
            let semaphore = old(process)@.semaphore(sem_id);
            &&& semaphore.wf()
            &&& semaphore.up(current).wf()
            &&& final(process)@ == old(process)@.with_semaphore(sem_id, semaphore.up(current))
            &&& outcome == (Outcome { code: 0, wake: semaphore.woken(), next: Next::Return })
        },
{
    if sem_id >= process.semaphore_list.len() {
        return Outcome::done(FAILURE);
    }
    let woken = match &mut process.semaphore_list[sem_id] {
        Some(semaphore) => semaphore.up(current),
        None => {
            assert(process.semaphore_list@ =~= old(process).semaphore_list@);
            return Outcome::done(FAILURE);
        },
    };
    proof {
        let semaphore = old(process)@.semaphore(sem_id);
        assert(process@.semaphores =~= old(process)@.semaphores.update(
            sem_id as int,
            Some(semaphore.up(current)),
        ));
    }
    Outcome { code: 0, wake: woken, next: Next::Return }
}

/// What `sys_semaphore_down` returns: `FAILURE` for a slot without a
/// semaphore; with detection on, `FAILURE` for a roster with an empty slot
/// and `DEADLOCK` where the request leaves no order in which every thread
/// can finish; else 0.
pub open spec fn semaphore_down_code(process: ProcessView, current: usize, sem_id: usize) -> isize {
    if !process.has_semaphore(sem_id) {
        FAILURE
    } else if !process.detect_enable {
        0
    } else if !all_present(process.tasks) {
        FAILURE
    } else if !process.semaphore_demand(current, sem_id).safe() {
        DEADLOCK
    } else {
        0
    }
}

/// Task `current` asks for a unit of the semaphore in slot `sem_id`.
///
/// With detection on, the request is first examined as if it were already
/// waiting.  A request that is refused changes nothing.
pub fn sys_semaphore_down(
    process: &mut Process,
    current: usize,
    sem_id: usize,
) -> (outcome: Outcome)
    requires
        old(process)@.has_semaphore(sem_id) ==> old(process)@.semaphore(sem_id).count > isize::MIN,
    ensures
        outcome.code == semaphore_down_code(old(process)@, current, sem_id),
        outcome.code == DEADLOCK ==> final(process)@ == old(process)@,
        outcome.code != 0 ==> {
            &&& outcome == Outcome::returned(outcome.code)
            &&& final(process)@ == old(process)@
        },
        outcome.code == 0 ==> {
            let semaphore = old(process)@.semaphore(sem_id);
            &&& semaphore.down(current).wf()
            &&& final(process)@ == old(process)@.with_semaphore(sem_id, semaphore.down(current))
            &&& outcome.wake.is_none()
            &&& outcome.next == if semaphore.down_blocks() {
                Next::Block
            } else {
                Next::Return
            }
        },
        old(process)@.has_semaphore(sem_id) ==> old(process)@.semaphore(sem_id).wf(),
{
    if process.semaphore(sem_id).is_none() {
        return Outcome::done(FAILURE);
    }
    if process.detect_enable {
        match process.semaphore_demand(current, sem_id) {
            None => {
                return Outcome::done(FAILURE);
            },
            Some(demand) => {
                if !demand.is_safe() {
                    return Outcome::done(DEADLOCK);
                }
            },
        }
    }
    let blocked = match &mut process.semaphore_list[sem_id] {
        Some(semaphore) => semaphore.down(current),
        None => {
            assert(process.semaphore_list@ =~= old(process).semaphore_list@);
            return Outcome::done(FAILURE);
        },
    };
    proof {
        let semaphore = old(process)@.semaphore(sem_id);
        assert(process@.semaphores =~= old(process)@.semaphores.update(
            sem_id as int,
            Some(semaphore.down(current)),
        ));
    }
    Outcome {
        code: 0,
        wake: None,
        next: if blocked {
            Next::Block
        } else {
            Next::Return
        },
    }
}

/// Makes a condition variable in the lowest empty slot of the table, or
/// in a new slot at its end, and returns the slot's number.
pub fn sys_condvar_create(process: &mut Process) -> (id: isize)
    ensures
        is_first_free(old(process)@.condvars, first_free(old(process)@.condvars)),
        id == first_free(old(process)@.condvars) as isize,
        final(process)@ == (ProcessView {
            condvars: placed(old(process)@.condvars, Seq::<usize>::empty()),
            ..old(process)@
        }),
{
    let id = process.create_condvar();
    #[verifier::truncate]
    (id as isize)
}

/// The task that has waited longest on the condition variable in slot
/// `condvar_id` leaves its queue and is named in `wake`.  Without waiters
/// nothing changes.
pub fn sys_condvar_signal(process: &mut Process, condvar_id: usize) -> (outcome: Outcome)
    ensures
        !old(process)@.has_condvar(condvar_id) ==> {
            &&& outcome == Outcome::returned(FAILURE)
            &&& final(process)@ == old(process)@
        },
        old(process)@.has_condvar(condvar_id) ==> {
            let waiters = old(process)@.condvar(condvar_id);
            &&& final(process)@ == old(process)@.with_condvar(condvar_id, after_signal(waiters))
            &&& outcome == (Outcome { code: 0, wake: signalled(waiters), next: Next::Return })
        },
{
    if condvar_id >= process.condvar_list.len() {
        return Outcome::done(FAILURE);
    }
    let woken = match &mut process.condvar_list[condvar_id] {
        Some(condvar) => condvar.signal(),
        None => {
            assert(process.condvar_list@ =~= old(process).condvar_list@);
            return Outcome::done(FAILURE);
        },
    };
    proof {
        let waiters = old(process)@.condvar(condvar_id);
        assert(process@.condvars =~= old(process)@.condvars.update(
            condvar_id as int,
            Some(after_signal(waiters)),
        ));
    }
    Outcome { code: 0, wake: woken, next: Next::Return }
}

/// Task `current` joins the waiters of the condition variable in slot
/// `condvar_id` and gives up the mutex in slot `mutex_id`.
///
/// The task that the release of the mutex wakes is named in `wake`.  The
/// caller sleeps until a signal names it and then takes the mutex again.
/// A blocking mutex must be locked.
pub fn sys_condvar_wait(
    process: &mut Process,
    current: usize,
    condvar_id: usize,
    mutex_id: usize,
) -> (outcome: Outcome)
    requires
        old(process)@.has_mutex(mutex_id) && old(process)@.mutex(mutex_id).blocking
            ==> old(process)@.mutex(mutex_id).locked,
    ensures
        !old(process)@.has_condvar(condvar_id) || !old(process)@.has_mutex(mutex_id) ==> {
            &&& outcome == Outcome::returned(FAILURE)
            &&& final(process)@ == old(process)@
        },
        old(process)@.has_condvar(condvar_id) && old(process)@.has_mutex(mutex_id) ==> {
            let waiters = old(process)@.condvar(condvar_id);
            let mutex = old(process)@.mutex(mutex_id);
            &&& mutex.wf()
            &&& mutex.unlock().wf()
            &&& final(process)@ == old(process)@.with_condvar(
                condvar_id,
                waiters.push(current),
            ).with_mutex(mutex_id, mutex.unlock())
            &&& outcome == (Outcome {
                code: 0,
                wake: mutex.woken(),
                next: Next::BlockThenLock { mutex_id },
            })
        },
{
    if process.condvar(condvar_id).is_none() || process.mutex(mutex_id).is_none() {
        return Outcome::done(FAILURE);
    }
    let woken = match &mut process.condvar_list[condvar_id] {
        Some(condvar) => match &mut process.mutex_list[mutex_id] {
            Some(mutex) => condvar.wait(current, mutex),
            None => {
                assert(process.mutex_list@ =~= old(process).mutex_list@);
                assert(process.condvar_list@ =~= old(process).condvar_list@);
                return Outcome::done(FAILURE);
            },
        },
        None => {
            assert(process.condvar_list@ =~= old(process).condvar_list@);
            return Outcome::done(FAILURE);
        },
    };
    proof {
        let waiters = old(process)@.condvar(condvar_id);
        let mutex = old(process)@.mutex(mutex_id);
        assert(process@.condvars =~= old(process)@.condvars.update(
            condvar_id as int,
            Some(waiters.push(current)),
        ));
        assert(process@.mutexes =~= old(process)@.mutexes.update(
            mutex_id as int,
            Some(mutex.unlock()),
        ));
    }
    Outcome { code: 0, wake: woken, next: Next::BlockThenLock { mutex_id } }
}

/// Switches the deadlock detector on where `enabled` is 1 and off for any
/// other value.
pub fn sys_enable_deadlock_detect(process: &mut Process, enabled: usize) -> (code: isize)
    ensures
        code == 0,
        final(process)@ == (ProcessView { detect_enable: enabled == 1, ..old(process)@ }),
{
    process.set_detect(enabled == 1);
    0
}

} // verus!
