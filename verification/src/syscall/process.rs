//! Calls by which a task gives up the processor, ends, asks for the time or
//! changes its address space, as far as they decide anything themselves.

use crate::syscall::outcome::{Next, Outcome, FAILURE};
use vstd::prelude::*;

verus! {

/// Bytes in a page.
pub const PAGE_SIZE: usize = 4096;

/// A time in seconds and microseconds.
#[derive(Clone, Copy, Debug, PartialEq, Eq, Structural)]
pub struct TimeVal {
    pub sec: usize,
    pub usec: usize,
}

impl TimeVal {
    /// The time that is `us` microseconds long.
    pub fn from_us(us: usize) -> (time: TimeVal)
        ensures
            time.sec == us / 1_000_000,
            time.usec == us % 1_000_000,
            time.sec * 1_000_000 + time.usec == us,
    {
        TimeVal { sec: us / 1_000_000, usec: us % 1_000_000 }
    }
}

/// Number of system calls that are counted for every task.
pub const MAX_SYSCALL_NUM: usize = 500;

/// Where a task stands in its life.
#[derive(Clone, Copy, Debug, PartialEq, Eq, Structural)]
pub enum TaskStatus {
    Ready,
    Running,
    Blocked,
}

/// What a task can learn about itself.
pub struct TaskInfo {
    /// Where the task stands in its life.
    pub status: TaskStatus,
    /// How often the task has made each system call.
    pub syscall_times: [u32; MAX_SYSCALL_NUM],
    /// How long the task has run, in milliseconds.
    pub time: usize,
}

impl TaskInfo {
    /// The record for the task that asks: it is running, has made the
    /// calls counted in `syscall_times`, and has run from `since_us` to
    /// `now_us`, both in microseconds.
    pub fn running(
        syscall_times: [u32; MAX_SYSCALL_NUM],
        now_us: usize,
        since_us: usize,
    ) -> (info: TaskInfo)
        requires
            since_us <= now_us,
        ensures
            info.status == TaskStatus::Running,
            info.syscall_times == syscall_times,
            info.time == (now_us - since_us) / 1000,
    {
        TaskInfo { status: TaskStatus::Running, syscall_times, time: (now_us - since_us) / 1000 }
    }
}

/// The pages that a call maps or unmaps.
#[derive(Clone, Copy, Debug, PartialEq, Eq, Structural)]
pub struct PageRange {
    /// Number of the first page.
    pub first: usize,
    /// How many pages.
    pub count: usize,
}

/// The pages that `len` bytes from address `start` lie in, where `start` is
/// the first byte of a page.
pub fn page_range(start: usize, len: usize) -> (range: Option<PageRange>)
    ensures
        range.is_some() == (start % PAGE_SIZE == 0),
        range matches Some(pages) ==> {
            &&& pages.first == start / PAGE_SIZE
            &&& pages.count == (len + (PAGE_SIZE - 1)) / (PAGE_SIZE as int)
        },
{
    if start % PAGE_SIZE != 0 {
        None
    } else {
        let whole = len / PAGE_SIZE;
        let count = if len % PAGE_SIZE == 0 {
            whole
        } else {
            whole + 1
        };
        Some(PageRange { first: start / PAGE_SIZE, count })
    }
}

/// The permission bits of a page table entry for the protection `prot`,
/// which holds read, write and execute in its three lowest bits: the same
/// bits one place higher.  Fails where `prot` grants nothing or holds
/// anything else.
pub fn entry_permission(prot: usize) -> (bits: Option<u8>)
    ensures
        bits.is_some() == (1 <= prot <= 7),
        bits matches Some(entry) ==> entry == 2 * prot,
{
    if prot == 0 || prot > 7 {
        None
    } else {
        Some((2 * prot) as u8)
    }
}

/// Whether a record of `size` bytes at address `va` reaches the end of its
/// page and is written in two parts.
pub fn reaches_page_end(va: usize, size: usize) -> (split: bool)
    ensures
        split == (va % PAGE_SIZE + size >= PAGE_SIZE),
{
    size >= PAGE_SIZE - va % PAGE_SIZE
}

/// The task ends.  The exit code is not recorded.
pub fn sys_exit(_exit_code: i32) -> (outcome: Outcome)
    ensures
        outcome == (Outcome { code: 0, wake: None, next: Next::Exit }),
{
    Outcome { code: 0, wake: None, next: Next::Exit }
}

/// The task gives up the processor for the other tasks.
pub fn sys_yield() -> (outcome: Outcome)
    ensures
        outcome == (Outcome { code: 0, wake: None, next: Next::Yield }),
{
    Outcome { code: 0, wake: None, next: Next::Yield }
}

/// Reports a change of the data segment's size: `old_brk` is the end of
/// the segment before the change, or `None` where the change was refused.
pub fn sys_sbrk(old_brk: Option<usize>) -> (code: isize)
    ensures
        code == match old_brk {
            Some(brk) => brk as isize,
            None => FAILURE,
        },
{
    match old_brk {
        Some(brk) => #[verifier::truncate]
        (brk as isize),
        None => FAILURE,
    }
}

} // verus!
