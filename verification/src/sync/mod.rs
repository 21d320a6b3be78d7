//! The synchronisation primitives: mutexes, semaphores, condition variables.
//!
//! A primitive never suspends a task itself.  Each operation updates the
//! primitive and reports what the scheduler has to do for the calling task
//! and which sleeping task, if any, it has to wake.

pub mod condvar;
pub mod mutex;
pub mod queue;
pub mod semaphore;

pub use condvar::Condvar;
pub use mutex::{AnyMutex, LockStep, Mutex, MutexBlocking, MutexSpin, MutexView};
pub use semaphore::{Semaphore, SemaphoreView};
