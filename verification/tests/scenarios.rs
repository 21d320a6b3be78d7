use kernel_sync::process::Process;
use kernel_sync::sync::Mutex;
use kernel_sync::syscall::sync::{
    retry_mutex_lock, sys_condvar_create, sys_condvar_signal, sys_condvar_wait,
    sys_enable_deadlock_detect, sys_mutex_create, sys_mutex_lock, sys_mutex_unlock,
    sys_semaphore_create, sys_semaphore_down,
};
use kernel_sync::syscall::{Next, Outcome, DEADLOCK};

fn two_threads() -> Process {
    let mut process = Process::new();
    process.tasks.push(Some(1));
    process.tasks.push(Some(2));
    process
}

fn went_on(code: isize) -> Outcome {
    Outcome { code, wake: None, next: Next::Return }
}

#[test]
fn simple_mutex_handoff() {
    let mut process = two_threads();
    assert_eq!(sys_mutex_create(&mut process, true), 0);

    assert_eq!(sys_mutex_lock(&mut process, 1, 0), went_on(0));
    {
        let m0 = process.mutex_list[0].as_ref().unwrap();
        assert_eq!(m0.get_owner(), Some(1));
        assert!(m0.is_locked());
    }

    assert_eq!(
        sys_mutex_lock(&mut process, 2, 0),
        Outcome { code: 0, wake: None, next: Next::Block }
    );
    assert_eq!(process.mutex_list[0].as_ref().unwrap().get_wait_queue(), vec![2]);

    assert_eq!(
        sys_mutex_unlock(&mut process, 0),
        Outcome { code: 0, wake: Some(2), next: Next::Return }
    );
    let m0 = process.mutex_list[0].as_ref().unwrap();
    assert_eq!(m0.get_owner(), Some(2));
    assert!(m0.is_locked());
    assert!(m0.get_wait_queue().is_empty());
}

fn crossed_mutexes() -> Process {
    let mut process = two_threads();
    assert_eq!(sys_mutex_create(&mut process, true), 0);
    assert_eq!(sys_mutex_create(&mut process, true), 1);
    assert_eq!(sys_mutex_lock(&mut process, 1, 0), went_on(0));
    assert_eq!(sys_mutex_lock(&mut process, 2, 1), went_on(0));
    process
}

#[test]
fn detector_allows_safe_request() {
    let mut process = crossed_mutexes();
    assert_eq!(sys_enable_deadlock_detect(&mut process, 1), 0);

    let demand = process.mutex_demand(1, 1).unwrap();
    assert_eq!(*demand.available(), vec![0, 0]);
    assert_eq!(*demand.allocation(), vec![vec![1, 0], vec![0, 1]]);
    assert_eq!(*demand.need(), vec![vec![0, 1], vec![0, 0]]);
    assert_eq!(*demand.active(), vec![true, true]);
    assert_eq!(demand.safe_sequence(), Some(vec![1, 0]));
    assert!(demand.is_safe());

    assert_eq!(
        sys_mutex_lock(&mut process, 1, 1),
        Outcome { code: 0, wake: None, next: Next::Block }
    );
    assert_eq!(process.mutex_list[1].as_ref().unwrap().get_wait_queue(), vec![1]);
}

#[test]
fn detector_refuses_deadlock() {
    let mut process = crossed_mutexes();
    assert_eq!(
        sys_mutex_lock(&mut process, 2, 0),
        Outcome { code: 0, wake: None, next: Next::Block }
    );
    assert_eq!(sys_enable_deadlock_detect(&mut process, 1), 0);

    let demand = process.mutex_demand(1, 1).unwrap();
    assert_eq!(*demand.available(), vec![0, 0]);
    assert_eq!(*demand.need(), vec![vec![0, 1], vec![1, 0]]);
    assert_eq!(demand.safe_sequence(), None);
    assert!(!demand.is_safe());

    assert_eq!(sys_mutex_lock(&mut process, 1, 1), went_on(DEADLOCK));
    assert_eq!(DEADLOCK, -57005);
    let m1 = process.mutex_list[1].as_ref().unwrap();
    assert!(m1.get_wait_queue().is_empty());
    assert!(m1.is_locked());
    assert_eq!(m1.get_owner(), Some(2));
    let m0 = process.mutex_list[0].as_ref().unwrap();
    assert_eq!(m0.get_wait_queue(), vec![2]);
    assert_eq!(m0.get_owner(), Some(1));
}

#[test]
fn semaphore_starve_then_safe() {
    let mut process = two_threads();
    assert_eq!(sys_semaphore_create(&mut process, 1), 0);
    assert_eq!(sys_semaphore_down(&mut process, 1, 0), went_on(0));
    {
        let s0 = process.semaphore_list[0].as_ref().unwrap();
        assert_eq!(s0.count(), 0);
        assert_eq!(s0.get_alloc_queue(), vec![1]);
    }
    assert_eq!(sys_enable_deadlock_detect(&mut process, 1), 0);

    let demand = process.semaphore_demand(2, 0).unwrap();
    assert_eq!(*demand.available(), vec![0]);
    assert_eq!(*demand.allocation(), vec![vec![1], vec![0]]);
    assert_eq!(*demand.need(), vec![vec![0], vec![1]]);
    assert_eq!(demand.safe_sequence(), Some(vec![0, 1]));

    assert_eq!(
        sys_semaphore_down(&mut process, 2, 0),
        Outcome { code: 0, wake: None, next: Next::Block }
    );
    let s0 = process.semaphore_list[0].as_ref().unwrap();
    assert_eq!(s0.count(), -1);
    assert_eq!(s0.get_wait_queue(), vec![2]);
    assert_eq!(s0.get_alloc_queue(), vec![1]);
}

#[test]
fn condvar_wait_signal() {
    let mut process = two_threads();
    assert_eq!(sys_mutex_create(&mut process, true), 0);
    assert_eq!(sys_condvar_create(&mut process), 0);
    assert_eq!(sys_mutex_lock(&mut process, 1, 0), went_on(0));

    assert_eq!(
        sys_condvar_wait(&mut process, 1, 0, 0),
        Outcome { code: 0, wake: None, next: Next::BlockThenLock { mutex_id: 0 } }
    );
    assert!(!process.mutex_list[0].as_ref().unwrap().is_locked());
    assert_eq!(process.mutex_list[0].as_ref().unwrap().get_owner(), None);
    assert_eq!(process.condvar_list[0].as_ref().unwrap().get_wait_queue(), vec![1]);

    assert_eq!(sys_mutex_lock(&mut process, 2, 0), went_on(0));
    assert_eq!(process.mutex_list[0].as_ref().unwrap().get_owner(), Some(2));

    assert_eq!(
        sys_condvar_signal(&mut process, 0),
        Outcome { code: 0, wake: Some(1), next: Next::Return }
    );
    assert!(process.condvar_list[0].as_ref().unwrap().get_wait_queue().is_empty());

    assert_eq!(
        retry_mutex_lock(&mut process, 1, 0),
        Outcome { code: 0, wake: None, next: Next::Block }
    );
    assert_eq!(
        sys_mutex_unlock(&mut process, 0),
        Outcome { code: 0, wake: Some(1), next: Next::Return }
    );
    let m0 = process.mutex_list[0].as_ref().unwrap();
    assert!(m0.is_locked());
    assert_eq!(m0.get_owner(), Some(1));
}

#[test]
fn excluded_thread() {
    let mut process = Process::new();
    process.tasks.push(Some(999));
    process.tasks.push(Some(1));
    process.tasks.push(Some(2));
    assert_eq!(sys_mutex_create(&mut process, true), 0);
    assert_eq!(sys_mutex_create(&mut process, true), 1);
    assert_eq!(sys_mutex_lock(&mut process, 1, 0), went_on(0));
    assert_eq!(sys_mutex_lock(&mut process, 2, 1), went_on(0));
    assert_eq!(sys_enable_deadlock_detect(&mut process, 1), 0);

    let demand = process.mutex_demand(1, 1).unwrap();
    assert_eq!(*demand.available(), vec![0, 0]);
    assert_eq!(*demand.allocation(), vec![vec![0, 0], vec![1, 0], vec![0, 1]]);
    assert_eq!(*demand.need(), vec![vec![0, 0], vec![0, 1], vec![0, 0]]);
    assert_eq!(*demand.active(), vec![false, true, true]);
    assert_eq!(demand.safe_sequence(), Some(vec![2, 1]));

    assert_eq!(
        sys_mutex_lock(&mut process, 1, 1),
        Outcome { code: 0, wake: None, next: Next::Block }
    );
}
