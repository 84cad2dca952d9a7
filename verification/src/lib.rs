//! A generic semaphore whose permit accounting is a user-supplied state, with a
//! fair waiting queue (FIFO, LIFO or a custom order), closing and poisoning.
//!
//! The queue logic lives in [`queue::SemaphoreQueue`]: it decides who gets a
//! permit and when, and hands the caller the wakers of tasks to wake. Locking and
//! futures around it are the caller's business.

pub mod state;
pub mod closeable;
pub mod order;
pub mod error;
pub mod queue;
pub mod builder;
pub mod pool;
pub mod drop_wrapper;
