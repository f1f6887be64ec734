//! A minimal cooperative task executor.
//!
//! Tasks are polled one at a time on a single logical thread. Ready tasks wait
//! in a first-in, first-out queue; a task that is not finished after a poll goes
//! to the back of the queue, so ready tasks are served round-robin. Every
//! spawned task has a completion cell, read through its [`JoinHandle`].
//!
//! [`JoinHandle`]: async_executor::JoinHandle

pub mod task;
pub mod queue;
pub mod waker;
pub mod model;
pub mod context;
pub mod utils;
pub mod async_executor;
pub mod laws;

pub use crate::async_executor::{Executor, JoinHandle, Runtime};
pub use crate::context::PollContext;
pub use crate::model::Cycle;
pub use crate::task::{Poll, Task};
pub use crate::utils::{async_yield, Yield};
