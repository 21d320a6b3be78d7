use kernel_sync::process::Process;
use kernel_sync::sync::Mutex;
use kernel_sync::syscall::process::{
    entry_permission, page_range, reaches_page_end, sys_exit, sys_sbrk, sys_yield, PageRange,
    TaskInfo, TaskStatus, TimeVal, MAX_SYSCALL_NUM, PAGE_SIZE,
};
use kernel_sync::syscall::sync::{
    retry_mutex_lock, sys_condvar_create, sys_condvar_signal, sys_condvar_wait,
    sys_enable_deadlock_detect, sys_mutex_create, sys_mutex_lock, sys_mutex_unlock,
    sys_semaphore_create, sys_semaphore_down, sys_semaphore_up, sys_sleep,
};
use kernel_sync::syscall::{Next, Outcome, DEADLOCK, FAILURE};

fn roster(tids: &[usize]) -> Process {
    let mut process = Process::new();
    for tid in tids {
        process.tasks.push(Some(*tid));
    }
    process
}

fn returned(code: isize) -> Outcome {
    Outcome { code, wake: None, next: Next::Return }
}

#[test]
fn new_process_is_empty() {
    let process = Process::new();
    assert!(process.mutex_list.is_empty());
    assert!(process.semaphore_list.is_empty());
    assert!(process.condvar_list.is_empty());
    assert!(process.tasks.is_empty());
    assert!(!process.detect_enable);
}

#[test]
fn create_appends_while_no_slot_is_empty() {
    let mut process = Process::new();
    assert_eq!(sys_mutex_create(&mut process, false), 0);
    assert_eq!(sys_mutex_create(&mut process, true), 1);
    assert_eq!(sys_mutex_create(&mut process, false), 2);
    assert_eq!(process.mutex_list.len(), 3);
    assert!(!process.mutex_list[0].as_ref().unwrap().is_blocking());
    assert!(process.mutex_list[1].as_ref().unwrap().is_blocking());

    assert_eq!(sys_semaphore_create(&mut process, 3), 0);
    assert_eq!(sys_semaphore_create(&mut process, 0), 1);
    assert_eq!(process.semaphore_list[0].as_ref().unwrap().count(), 3);
    assert_eq!(process.semaphore_list[1].as_ref().unwrap().count(), 0);

    assert_eq!(sys_condvar_create(&mut process), 0);
    assert_eq!(sys_condvar_create(&mut process), 1);
    assert_eq!(process.condvar_list.len(), 2);
}

#[test]
fn create_reuses_the_lowest_empty_slot() {
    let mut process = Process::new();
    for _ in 0..4 {
        sys_mutex_create(&mut process, true);
        sys_semaphore_create(&mut process, 1);
        sys_condvar_create(&mut process);
    }
    process.mutex_list[3] = None;
    process.mutex_list[1] = None;
    assert_eq!(sys_mutex_create(&mut process, false), 1);
    assert_eq!(process.mutex_list.len(), 4);
    assert!(!process.mutex_list[1].as_ref().unwrap().is_blocking());
    assert!(process.mutex_list[3].is_none());
    assert_eq!(sys_mutex_create(&mut process, false), 3);
    assert_eq!(sys_mutex_create(&mut process, false), 4);
    assert_eq!(process.mutex_list.len(), 5);

    process.semaphore_list[0] = None;
    assert_eq!(sys_semaphore_create(&mut process, 7), 0);
    assert_eq!(process.semaphore_list[0].as_ref().unwrap().count(), 7);
    assert_eq!(process.semaphore_list.len(), 4);

    process.condvar_list[2] = None;
    assert_eq!(sys_condvar_create(&mut process), 2);
    assert_eq!(process.condvar_list.len(), 4);
    assert_eq!(process.create_condvar(), 4);
    assert_eq!(process.create_mutex(true), 5);
    assert_eq!(process.create_semaphore(2), 4);
}

#[test]
fn calls_on_missing_slots_fail_and_change_nothing() {
    let mut process = roster(&[1]);
    assert_eq!(FAILURE, -1);
    assert_eq!(sys_mutex_lock(&mut process, 1, 0), returned(-1));
    assert_eq!(retry_mutex_lock(&mut process, 1, 0), returned(-1));
    assert_eq!(sys_mutex_unlock(&mut process, 0), returned(-1));
    assert_eq!(sys_semaphore_up(&mut process, 1, 0), returned(-1));
    assert_eq!(sys_semaphore_down(&mut process, 1, 0), returned(-1));
    assert_eq!(sys_condvar_signal(&mut process, 0), returned(-1));
    assert_eq!(sys_condvar_wait(&mut process, 1, 0, 0), returned(-1));

    sys_mutex_create(&mut process, true);
    sys_semaphore_create(&mut process, 1);
    sys_condvar_create(&mut process);
    process.mutex_list.push(None);
    process.semaphore_list.push(None);
    process.condvar_list.push(None);
    assert_eq!(sys_mutex_lock(&mut process, 1, 1), returned(-1));
    assert_eq!(retry_mutex_lock(&mut process, 1, 1), returned(-1));
    assert_eq!(sys_mutex_unlock(&mut process, 1), returned(-1));
    assert_eq!(sys_semaphore_up(&mut process, 1, 1), returned(-1));
    assert_eq!(sys_semaphore_down(&mut process, 1, 1), returned(-1));
    assert_eq!(sys_condvar_signal(&mut process, 1), returned(-1));
    assert_eq!(sys_mutex_lock(&mut process, 1, 0), returned(0));
    assert_eq!(sys_condvar_wait(&mut process, 1, 1, 0), returned(-1));
    assert_eq!(sys_condvar_wait(&mut process, 1, 0, 1), returned(-1));
    assert_eq!(sys_condvar_wait(&mut process, 1, 0, 2), returned(-1));

    let m0 = process.mutex_list[0].as_ref().unwrap();
    assert_eq!(m0.get_owner(), Some(1));
    assert!(process.condvar_list[0].as_ref().unwrap().get_wait_queue().is_empty());
    assert_eq!(process.semaphore_list[0].as_ref().unwrap().count(), 1);
}

#[test]
fn detector_switch_is_on_for_one_only() {
    let mut process = Process::new();
    assert_eq!(sys_enable_deadlock_detect(&mut process, 1), 0);
    assert!(process.detect_enable);
    assert_eq!(sys_enable_deadlock_detect(&mut process, 0), 0);
    assert!(!process.detect_enable);
    assert_eq!(sys_enable_deadlock_detect(&mut process, 1), 0);
    assert_eq!(sys_enable_deadlock_detect(&mut process, 2), 0);
    assert!(!process.detect_enable);
    process.set_detect(true);
    assert!(process.detect_enable);
}

#[test]
fn spin_lock_call_asks_for_retries_until_the_mutex_is_free() {
    let mut process = roster(&[1, 2]);
    sys_mutex_create(&mut process, false);
    assert_eq!(sys_mutex_lock(&mut process, 1, 0), returned(0));
    let retry = Outcome { code: 0, wake: None, next: Next::Retry { mutex_id: 0 } };
    assert_eq!(sys_mutex_lock(&mut process, 2, 0), retry);
    assert_eq!(retry_mutex_lock(&mut process, 2, 0), retry);
    assert_eq!(process.mutex_list[0].as_ref().unwrap().get_wait_queue(), vec![2]);
    assert_eq!(sys_mutex_unlock(&mut process, 0), returned(0));
    assert_eq!(retry_mutex_lock(&mut process, 2, 0), returned(0));
    let m0 = process.mutex_list[0].as_ref().unwrap();
    assert_eq!(m0.get_owner(), Some(2));
    assert!(m0.get_wait_queue().is_empty());
}

#[test]
fn detector_fails_on_an_empty_roster_slot() {
    let mut process = roster(&[1, 2]);
    process.tasks.push(None);
    sys_mutex_create(&mut process, true);
    sys_semaphore_create(&mut process, 1);
    sys_enable_deadlock_detect(&mut process, 1);
    assert_eq!(sys_mutex_lock(&mut process, 1, 0), returned(-1));
    assert_eq!(sys_semaphore_down(&mut process, 1, 0), returned(-1));
    assert!(!process.mutex_list[0].as_ref().unwrap().is_locked());
    assert_eq!(process.semaphore_list[0].as_ref().unwrap().count(), 1);

    sys_enable_deadlock_detect(&mut process, 0);
    assert_eq!(sys_mutex_lock(&mut process, 1, 0), returned(0));
    assert_eq!(sys_semaphore_down(&mut process, 1, 0), returned(0));
}

#[test]
fn detector_treats_an_empty_resource_slot_as_absent() {
    let mut process = roster(&[1, 2]);
    sys_mutex_create(&mut process, true);
    sys_mutex_create(&mut process, true);
    sys_semaphore_create(&mut process, 1);
    sys_semaphore_create(&mut process, 1);
    process.mutex_list[0] = None;
    process.semaphore_list[0] = None;
    sys_enable_deadlock_detect(&mut process, 1);

    let demand = process.mutex_demand(1, 1).unwrap();
    assert_eq!(*demand.available(), vec![0, 1]);
    assert_eq!(*demand.allocation(), vec![vec![0, 0], vec![0, 0]]);
    assert_eq!(*demand.need(), vec![vec![0, 1], vec![0, 0]]);
    let demand = process.mutex_demand(1, 0).unwrap();
    assert_eq!(*demand.need(), vec![vec![0, 0], vec![0, 0]]);
    assert_eq!(sys_mutex_lock(&mut process, 1, 1), returned(0));

    let demand = process.semaphore_demand(2, 1).unwrap();
    assert_eq!(*demand.available(), vec![0, 1]);
    assert_eq!(*demand.need(), vec![vec![0, 0], vec![0, 1]]);
    assert_eq!(sys_semaphore_down(&mut process, 2, 1), returned(0));
}

#[test]
fn detector_refuses_a_request_for_a_mutex_that_the_caller_holds() {
    let mut process = roster(&[1]);
    sys_mutex_create(&mut process, true);
    sys_enable_deadlock_detect(&mut process, 1);
    assert_eq!(sys_mutex_lock(&mut process, 1, 0), returned(0));
    assert_eq!(sys_mutex_lock(&mut process, 1, 0), returned(DEADLOCK));
    let m0 = process.mutex_list[0].as_ref().unwrap();
    assert_eq!(m0.get_owner(), Some(1));
    assert!(m0.get_wait_queue().is_empty());
}

#[test]
fn detector_refuses_a_semaphore_deadlock_and_changes_nothing() {
    let mut process = roster(&[1, 2]);
    sys_semaphore_create(&mut process, 1);
    sys_semaphore_create(&mut process, 1);
    assert_eq!(sys_semaphore_down(&mut process, 1, 0), returned(0));
    assert_eq!(sys_semaphore_down(&mut process, 2, 1), returned(0));
    assert_eq!(
        sys_semaphore_down(&mut process, 2, 0),
        Outcome { code: 0, wake: None, next: Next::Block }
    );
    sys_enable_deadlock_detect(&mut process, 1);

    let demand = process.semaphore_demand(1, 1).unwrap();
    assert_eq!(*demand.available(), vec![0, 0]);
    assert_eq!(*demand.allocation(), vec![vec![1, 0], vec![0, 1]]);
    assert_eq!(*demand.need(), vec![vec![0, 1], vec![1, 0]]);

    assert_eq!(sys_semaphore_down(&mut process, 1, 1), returned(-0xDEAD));
    let s0 = process.semaphore_list[0].as_ref().unwrap();
    assert_eq!(s0.count(), -1);
    assert_eq!(s0.get_wait_queue(), vec![2]);
    assert_eq!(s0.get_alloc_queue(), vec![1]);
    let s1 = process.semaphore_list[1].as_ref().unwrap();
    assert_eq!(s1.count(), 0);
    assert!(s1.get_wait_queue().is_empty());
    assert_eq!(s1.get_alloc_queue(), vec![2]);

    // The request goes through once thread 2 has let go of the second unit.
    assert_eq!(sys_semaphore_up(&mut process, 2, 1), returned(0));
    assert_eq!(sys_semaphore_down(&mut process, 1, 1), returned(0));
}

#[test]
fn semaphore_up_reports_the_task_to_wake() {
    let mut process = roster(&[1, 2]);
    sys_semaphore_create(&mut process, 1);
    sys_semaphore_down(&mut process, 1, 0);
    sys_semaphore_down(&mut process, 2, 0);
    assert_eq!(
        sys_semaphore_up(&mut process, 1, 0),
        Outcome { code: 0, wake: Some(2), next: Next::Return }
    );
    let s0 = process.semaphore_list[0].as_ref().unwrap();
    assert_eq!(s0.count(), 0);
    assert_eq!(s0.get_alloc_queue(), vec![2]);
    assert!(s0.get_wait_queue().is_empty());
}

#[test]
fn balanced_downs_and_ups_restore_the_semaphore() {
    let mut process = roster(&[1, 2, 3]);
    sys_semaphore_create(&mut process, 2);
    for round in 0..3 {
        for tid in [1, 2, 3] {
            sys_semaphore_down(&mut process, tid, 0);
        }
        for tid in [1, 2, 3] {
            sys_semaphore_up(&mut process, tid, 0);
        }
        let s0 = process.semaphore_list[0].as_ref().unwrap();
        assert_eq!(s0.count(), 2, "round {}", round);
        assert!(s0.get_alloc_queue().is_empty());
        assert!(s0.get_wait_queue().is_empty());
    }
}

#[test]
fn condvar_wait_hands_a_blocking_mutex_to_its_waiter() {
    let mut process = roster(&[1, 2]);
    sys_mutex_create(&mut process, true);
    sys_condvar_create(&mut process);
    sys_mutex_lock(&mut process, 1, 0);
    sys_mutex_lock(&mut process, 2, 0);
    assert_eq!(
        sys_condvar_wait(&mut process, 1, 0, 0),
        Outcome { code: 0, wake: Some(2), next: Next::BlockThenLock { mutex_id: 0 } }
    );
    let m0 = process.mutex_list[0].as_ref().unwrap();
    assert!(m0.is_locked());
    assert_eq!(m0.get_owner(), Some(2));
    assert_eq!(process.condvar_list[0].as_ref().unwrap().get_wait_queue(), vec![1]);
}

#[test]
fn condvar_signal_without_waiters_wakes_nobody() {
    let mut process = roster(&[1]);
    sys_condvar_create(&mut process);
    assert_eq!(sys_condvar_signal(&mut process, 0), returned(0));
}

#[test]
fn sleep_ends_after_the_time_asked_for() {
    assert_eq!(
        sys_sleep(1_000, 250),
        Outcome { code: 0, wake: None, next: Next::Sleep { until: 1_250 } }
    );
    assert_eq!(
        sys_sleep(usize::MAX - 1, 1),
        Outcome { code: 0, wake: None, next: Next::Sleep { until: usize::MAX } }
    );
}

#[test]
fn yield_and_exit_leave_it_to_the_scheduler() {
    assert_eq!(sys_yield(), Outcome { code: 0, wake: None, next: Next::Yield });
    assert_eq!(sys_exit(3).next, Next::Exit);
}

#[test]
fn sbrk_reports_the_old_break_or_failure() {
    assert_eq!(sys_sbrk(Some(0x1000)), 0x1000);
    assert_eq!(sys_sbrk(Some(0)), 0);
    assert_eq!(sys_sbrk(None), -1);
}

#[test]
fn time_is_split_into_seconds_and_microseconds() {
    let time = TimeVal::from_us(3_000_042);
    assert_eq!((time.sec, time.usec), (3, 42));
    let time = TimeVal::from_us(999_999);
    assert_eq!((time.sec, time.usec), (0, 999_999));
    let time = TimeVal::from_us(0);
    assert_eq!((time.sec, time.usec), (0, 0));
}

#[test]
fn page_range_needs_an_aligned_start_and_rounds_the_length_up() {
    assert_eq!(PAGE_SIZE, 4096);
    assert_eq!(page_range(0x1000_0000, 4096), Some(PageRange { first: 0x10000, count: 1 }));
    assert_eq!(page_range(0x1000_0000, 4097), Some(PageRange { first: 0x10000, count: 2 }));
    assert_eq!(page_range(0x1000_0000, 1), Some(PageRange { first: 0x10000, count: 1 }));
    assert_eq!(page_range(0x1000_0000, 0), Some(PageRange { first: 0x10000, count: 0 }));
    assert_eq!(page_range(0, 3 * 4096), Some(PageRange { first: 0, count: 3 }));
    assert_eq!(page_range(0x1000_0001, 4096), None);
    assert_eq!(page_range(4095, 4096), None);
    assert_eq!(
        page_range(0, usize::MAX),
        Some(PageRange { first: 0, count: usize::MAX / 4096 + 1 })
    );
}

#[test]
fn entry_permission_shifts_the_three_protection_bits() {
    assert_eq!(entry_permission(0), None);
    assert_eq!(entry_permission(1), Some(0b0010));
    assert_eq!(entry_permission(2), Some(0b0100));
    assert_eq!(entry_permission(3), Some(0b0110));
    assert_eq!(entry_permission(4), Some(0b1000));
    assert_eq!(entry_permission(7), Some(0b1110));
    assert_eq!(entry_permission(8), None);
    assert_eq!(entry_permission(9), None);
    assert_eq!(entry_permission(usize::MAX), None);
}

#[test]
fn record_reaches_page_end_when_it_fills_the_page() {
    assert!(!reaches_page_end(0x2000, 16));
    assert!(!reaches_page_end(0x2fe0, 16));
    assert!(reaches_page_end(0x2ff0, 16));
    assert!(reaches_page_end(0x2ff8, 16));
    assert!(reaches_page_end(0x2000, 4096));
    assert!(reaches_page_end(0x2001, usize::MAX));
}

#[test]
fn task_info_reports_the_running_time_in_whole_milliseconds() {
    let mut times = [0u32; MAX_SYSCALL_NUM];
    times[64] = 3;
    times[169] = 1;
    let info = TaskInfo::running(times, 5_000_000, 2_000_000);
    assert_eq!(info.status, TaskStatus::Running);
    assert_eq!(info.syscall_times, times);
    assert_eq!(info.time, 3_000);
    assert_eq!(TaskInfo::running(times, 2_999, 1_000).time, 1);
    assert_eq!(TaskInfo::running(times, 1_999, 1_000).time, 0);
    assert_eq!(TaskInfo::running(times, 7, 7).time, 0);
    assert_eq!(MAX_SYSCALL_NUM, 500);
}

#[test]
fn lookup_finds_what_a_slot_holds() {
    let mut process = roster(&[1]);
    assert!(process.mutex(0).is_none());
    assert!(process.semaphore(0).is_none());
    assert!(process.condvar(0).is_none());
    sys_mutex_create(&mut process, true);
    sys_semaphore_create(&mut process, 4);
    sys_condvar_create(&mut process);
    process.mutex_list.push(None);
    process.semaphore_list.push(None);
    process.condvar_list.push(None);
    assert!(process.mutex(0).unwrap().is_blocking());
    assert_eq!(process.semaphore(0).unwrap().count(), 4);
    assert!(process.condvar(0).unwrap().get_wait_queue().is_empty());
    assert!(process.mutex(1).is_none());
    assert!(process.semaphore(1).is_none());
    assert!(process.condvar(1).is_none());
    assert!(process.mutex(2).is_none());
    assert!(process.semaphore(usize::MAX).is_none());
    assert!(process.condvar(7).is_none());
}

#[test]
fn done_returns_the_code_and_wakes_nobody() {
    assert_eq!(Outcome::done(-3), Outcome { code: -3, wake: None, next: Next::Return });
}
