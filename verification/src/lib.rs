//! Synchronisation core of a small multitasking kernel: mutexes, counting
//! semaphores, condition variables, the per-process tables that hold them and
//! a deadlock detector that gates the calls which may put a thread to sleep.
//!
//! The library decides and the kernel acts.  A system call takes the state
//! of the calling thread's process and the thread's identifier, updates the
//! state, and returns an [`syscall::Outcome`]: the value for the caller, the
//! thread to wake, and whether the caller returns, yields, or sleeps.  The
//! library never switches threads itself.
//!
//! * [`sync`] holds the primitives.  Each is described by a view, and each
//!   operation by the view it leaves behind.
//! * [`detector`] holds the Banker's safety check: the demand matrices, the
//!   search for an order in which every thread can finish, and the proof
//!   that the search finds one exactly when one exists.
//! * [`process`] holds the tables of one process and reads the demand off
//!   them.
//! * [`syscall`] holds the calls.

pub mod detector;
pub mod process;
pub mod sync;
pub mod syscall;
