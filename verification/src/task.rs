//! What a task is to the executor: something that can be polled.

use vstd::prelude::*;
use crate::context::PollContext;

verus! {

/// The result of one attempt to advance a task or to read a handle.
#[derive(Debug, PartialEq, Eq)]
pub enum Poll<R> {
    /// The work is finished and this is its output.
    Ready(R),
    /// Not finished yet: try again on a later scheduling turn.
    Pending,
    /// The work can never finish: the task was lost to an irrecoverable fault.
    Faulted,
}

/// A unit of work that the executor drives to completion.
///
/// `poll` advances the task as far as it can go without waiting. While a task
/// is being polled it is owned by the driver, not by the ready queue. Through
/// the context it can look at the executor and ask for further tasks to be
/// spawned; it cannot change the executor. Nothing is promised about what a
/// poll returns or asks for.
pub trait Task: Sized {
    /// What the task produces when it finishes.
    type Output;

    /// Advances the task once.
    fn poll(&mut self, context: &mut PollContext<'_, Self>) -> Poll<Self::Output>;
}

} // verus!
