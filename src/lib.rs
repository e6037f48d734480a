//! Synchronization-resource accounting and deadlock detection for the threads
//! of one process: handle registry for mutexes, semaphores and condition
//! variables, per-thread request/allocation tables, and a one-pass safety check
//! consulted before a request may block.

pub mod accounting;
pub mod process;
pub mod task;
