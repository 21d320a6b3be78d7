//! The system calls of the synchronisation core.
//!
//! A call never suspends or wakes a task itself.  It updates the state of
//! the process and hands back an [`Outcome`]: the value for the caller, the
//! task to wake and the way in which the caller goes on.

pub mod outcome;
pub mod process;
pub mod sync;

pub use outcome::{Next, Outcome, DEADLOCK, FAILURE};
