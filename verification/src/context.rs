//! What a task sees of the executor while it is polled.

use vstd::prelude::*;
use std::collections::VecDeque;
use crate::async_executor::{Executor, JoinHandle};
use crate::model::ExecutorView;
use crate::task::{Poll, Task};

verus! {

/// The context of one poll: a look at the executor, which stays as it is for
/// the length of the poll, and the list of the tasks that the poll has asked
/// to spawn. The driver puts them into the ready queue, in order, as soon as
/// the poll returns.
pub struct PollContext<'a, T: Task> {
    executor: &'a Executor<T>,
    spawned: VecDeque<T>,
}

impl<'a, T: Task> PollContext<'a, T> {
    /// The state of the executor that the context looks at.
    pub closed spec fn executor(&self) -> ExecutorView<T> {
        self.executor@
    }

    /// The tasks that the poll has asked to spawn so far, oldest first.
    pub closed spec fn spawned(&self) -> Seq<T> {
        self.spawned@
    }

    /// A context on the executor, with nothing spawned yet.
    pub(crate) fn new(executor: &'a Executor<T>) -> (context: Self)
        ensures
            context.executor() == executor@,
            context.spawned() == Seq::<T>::empty(),
            context.wake_signal() == executor.wake_signal(),
    {
        PollContext { executor, spawned: VecDeque::new() }
    }

    /// Ends the poll: gives up the look at the executor and hands out the
    /// tasks to take in.
    pub(crate) fn into_spawned(self) -> (spawned: VecDeque<T>)
        ensures
            spawned@ == self.spawned(),
    {
        self.spawned
    }

    /// Asks for a task to be spawned. The task is not polled now: it joins the
    /// ready queue when the current poll returns, behind the tasks spawned
    /// before it. The handle names the place in the task table that the task
    /// will then get.
    pub fn spawn(&mut self, task: T) -> (handle: JoinHandle)
        ensures
            final(self).spawned() == old(self).spawned().push(task),
            final(self).executor() == old(self).executor(),
            old(self).executor().slots.len() + old(self).spawned().len() <= usize::MAX
                ==> handle@ == old(self).executor().slots.len() + old(self).spawned().len(),
    {
        let base = self.executor.task_count();
        let offset = self.spawned.len();
        let id = if offset <= usize::MAX - base {
            base + offset
        } else {
            usize::MAX
        };
        self.spawned.push_back(task);
        JoinHandle::of(id)
    }

    /// The state that the executor will have when the poll returns, if the
    /// poll asks for nothing more: the tasks spawned so far have joined the
    /// queue.
    pub open spec fn upcoming(&self) -> ExecutorView<T> {
        self.executor().spawn_all(self.spawned())
    }

    /// Looks at a handle without taking anything: pending until the task has
    /// finished, then a reference to its output, which stays in the completion
    /// cell. The handle of a task spawned during this very poll is pending. A
    /// handle that can never deliver reports the fault.
    pub fn peek_handle(&self, handle: &JoinHandle) -> (result: Poll<&T::Output>)
        ensures
            match result {
                Poll::Ready(output) => self.upcoming().handle_poll(handle@) == Poll::Ready(*output),
                Poll::Pending => self.upcoming().handle_poll(handle@) is Pending,
                Poll::Faulted => self.upcoming().handle_poll(handle@) is Faulted,
            },
    {
        let id = handle.id();
        let base = self.executor.task_count();
        proof {
            self.executor().lemma_spawn_all_appends(self.spawned());
            if id < base {
                assert(self.upcoming().slots.subrange(0, base as int)[id as int]
                    == self.upcoming().slots[id as int]);
            }
        }
        if id >= base && id - base < self.spawned.len() {
            assert(self.upcoming().slots[base + (id - base)] is Queued);
            Poll::Pending
        } else {
            self.executor.peek_handle(handle)
        }
    }

    /// The wake signal of the driver. Waking it does nothing: every pending
    /// task is polled again on a later turn anyway.
    pub fn waker(&self) -> (waker: &core::task::Waker)
        ensures
            *waker == self.wake_signal(),
    {
        self.executor.waker()
    }

    /// The wake signal of the executor that the context looks at.
    pub closed spec fn wake_signal(&self) -> core::task::Waker {
        self.executor.wake_signal()
    }
}

} // verus!
