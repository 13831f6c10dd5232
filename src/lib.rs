//! A single-core, priority-based task scheduler model: a wrap-aware
//! monotonic clock, a delay queue of timed wakeups, priority-ceiling
//! resource locking, and a dispatcher that ranks runnable tasks by
//! static priority, with a validation pass over the static task set.
pub mod clock;
pub mod delay_queue;
pub mod scheduler;
pub mod config;
