//! The executor as a mathematical state: the ready queue and the task table,
//! and what each operation does to them.

use vstd::prelude::*;
use crate::task::{Poll, Task};

verus! {

/// One entry of the task table: where a spawned task stands, and, once it has
/// finished, its completion cell.
pub enum Slot<T: Task> {
    /// The task waits in the ready queue for its next poll; its body is kept
    /// here meanwhile.
    Queued(T),
    /// The task is out of the queue, with the driver that is polling it.
    Running,
    /// The task has finished; its output waits for the handle.
    Done(T::Output),
    /// The task has finished and its output was handed to the handle.
    Taken,
    /// The task faulted and will never produce an output.
    Faulted,
}

/// The state of an executor: the identifiers in the ready queue, front first,
/// and the task table, indexed by identifier.
pub struct ExecutorView<T: Task> {
    pub queue: Seq<usize>,
    pub slots: Seq<Slot<T>>,
}

/// The task identifiers behind a list of handles, in the same order.
pub open spec fn handle_ids(handles: Seq<crate::async_executor::JoinHandle>) -> Seq<usize> {
    Seq::new(handles.len(), |i: int| handles[i]@)
}

/// What one scheduling cycle did.
#[derive(PartialEq, Eq, Structural, Clone, Copy, Debug)]
pub enum Cycle {
    /// Nothing was ready.
    Idle,
    /// The task was polled, is not finished, and went to the back of the queue.
    Requeued(usize),
    /// The task was polled and finished; its output is in its completion cell.
    Finished(usize),
    /// The task was polled and faulted.
    Faulted(usize),
}

impl Cycle {
    /// The report of a cycle that polled task `id` with the given outcome.
    pub open spec fn reporting<R>(id: usize, outcome: Poll<R>) -> Cycle {
        match outcome {
            Poll::Pending => Cycle::Requeued(id),
            Poll::Ready(_) => Cycle::Finished(id),
            Poll::Faulted => Cycle::Faulted(id),
        }
    }
}

/// Whether the list of identifiers names the task at index `id` of the table.
pub open spec fn names(ids: Seq<usize>, id: int) -> bool {
    exists|k: int| 0 <= k < ids.len() && #[trigger] ids[k] == id
}

/// The ready queue after one scheduling cycle: the front task is polled and
/// leaves the front; if it is still pending it goes to the back.
pub open spec fn serve(queue: Seq<usize>, pending: bool) -> Seq<usize>
    recommends
        queue.len() > 0,
{
    if pending {
        queue.drop_first().push(queue[0])
    } else {
        queue.drop_first()
    }
}

/// The ready queue after one scheduling cycle for each entry of `pending`,
/// which says whether the task polled in that cycle was still pending. The
/// cycles stop early when the queue is empty.
pub open spec fn serve_all(queue: Seq<usize>, pending: Seq<bool>) -> Seq<usize>
    decreases pending.len(),
{
    if pending.len() == 0 || queue.len() == 0 {
        queue
    } else {
        serve_all(serve(queue, pending[0]), pending.drop_first())
    }
}

/// The tasks that those cycles poll, in the order of the polls.
pub open spec fn service_order(queue: Seq<usize>, pending: Seq<bool>) -> Seq<usize>
    decreases pending.len(),
{
    if pending.len() == 0 || queue.len() == 0 {
        Seq::empty()
    } else {
        seq![queue[0]] + service_order(serve(queue, pending[0]), pending.drop_first())
    }
}

/// The outcomes of the polls of `count` tasks that each yield once before
/// they finish, served in turn: `count` pending polls, then `count` ready ones.
pub open spec fn yield_once(count: nat) -> Seq<bool> {
    Seq::new(2 * count, |i: int| i < count)
}

impl<T: Task> ExecutorView<T> {
    /// No task was ever spawned.
    pub open spec fn empty() -> Self {
        ExecutorView { queue: Seq::empty(), slots: Seq::empty() }
    }

    /// The queue and the table agree: no task is queued twice, every queued
    /// identifier names a task whose body is parked in the table, and every
    /// parked task is in the queue.
    pub open spec fn wf(self) -> bool {
        &&& self.queue.no_duplicates()
        &&& forall|i: int|
            0 <= i < self.queue.len() ==> self.is_queued(#[trigger] self.queue[i])
        &&& forall|id: usize| #[trigger] self.is_queued(id) ==> self.queue.contains(id)
    }

    /// The task exists and waits in the ready queue.
    pub open spec fn is_queued(self, id: usize) -> bool {
        id < self.slots.len() && self.slots[id as int] is Queued
    }

    /// The task exists and is with a driver.
    pub open spec fn is_running(self, id: usize) -> bool {
        id < self.slots.len() && self.slots[id as int] is Running
    }

    /// The state after a new task is spawned: it gets the next identifier, its
    /// body is parked unpolled, and it joins the back of the queue.
    pub open spec fn spawn(self, task: T) -> Self {
        ExecutorView {
            queue: self.queue.push(self.slots.len() as usize),
            slots: self.slots.push(Slot::Queued(task)),
        }
    }

    /// The body of the task at the front of the queue.
    pub open spec fn front_task(self) -> T
        recommends
            self.queue.len() > 0,
            self.is_queued(self.queue[0]),
    {
        self.slots[self.queue[0] as int]->Queued_0
    }

    /// The state after the front task is handed to the driver: it leaves the
    /// queue and is marked as running.
    pub open spec fn begin(self) -> Self
        recommends
            self.queue.len() > 0,
    {
        ExecutorView {
            queue: self.queue.drop_first(),
            slots: self.slots.update(self.queue[0] as int, Slot::Running),
        }
    }

    /// The state after a running task comes back from its poll. A pending task
    /// is parked again and goes to the back of the queue, once. A finished one
    /// leaves its output in its completion cell; a faulted one is marked so.
    /// Nothing else changes.
    pub open spec fn settle(self, id: usize, task: T, outcome: Poll<T::Output>) -> Self
        recommends
            self.is_running(id),
    {
        match outcome {
            Poll::Pending => ExecutorView {
                queue: self.queue.push(id),
                slots: self.slots.update(id as int, Slot::Queued(task)),
            },
            Poll::Ready(output) => ExecutorView {
                queue: self.queue,
                slots: self.slots.update(id as int, Slot::Done(output)),
            },
            Poll::Faulted => ExecutorView {
                queue: self.queue,
                slots: self.slots.update(id as int, Slot::Faulted),
            },
        }
    }

    /// The state after the given tasks are spawned one after the other.
    pub open spec fn spawn_all(self, tasks: Seq<T>) -> Self
        decreases tasks.len(),
    {
        if tasks.len() == 0 {
            self
        } else {
            self.spawn_all(tasks.drop_last()).spawn(tasks.last())
        }
    }

    /// `later` is this state with some tasks spawned and nothing else changed:
    /// no task was served.
    pub open spec fn grows_to(self, later: Self) -> bool {
        exists|tasks: Seq<T>| later == #[trigger] self.spawn_all(tasks)
    }

    /// The state after one scheduling cycle: the front task is taken and
    /// polled; the tasks that the poll spawned join the queue, in order; then
    /// the polled task, left as `task` by the poll, is settled with the
    /// poll's outcome, so that a pending task stands behind what it spawned.
    pub open spec fn turn(self, spawned: Seq<T>, task: T, outcome: Poll<T::Output>) -> Self
        recommends
            self.queue.len() > 0,
    {
        self.begin().spawn_all(spawned).settle(self.queue[0], task, outcome)
    }

    /// `later` is the state one scheduling cycle after this one, and `report`
    /// tells what the cycle did, for some outcome of the poll.
    pub open spec fn turns_to(self, later: Self, report: Cycle) -> bool
        recommends
            self.queue.len() > 0,
    {
        exists|spawned: Seq<T>, task: T, outcome: Poll<T::Output>|
            later == #[trigger] self.turn(spawned, task, outcome) && report == Cycle::reporting(
                self.queue[0],
                outcome,
            )
    }

    /// `later` is the state after one call for a scheduling cycle: with
    /// nothing ready the state stays as it is, otherwise the front task has
    /// had its turn.
    pub open spec fn cycles_to(self, later: Self) -> bool {
        if self.queue.len() == 0 {
            later == self
        } else {
            exists|report: Cycle| #[trigger] self.turns_to(later, report)
        }
    }

    /// `later` is the state after one round of a run: the root may be polled,
    /// which can only spawn tasks, and then one scheduling cycle takes place,
    /// on a state whose queue and table agree.
    pub open spec fn round_to(self, later: Self) -> bool {
        exists|polled: Self| self.grows_to(polled) && polled.wf() && #[trigger] polled.cycles_to(later)
    }

    /// `later` is the state after `rounds` rounds of a run.
    pub open spec fn runs_to(self, later: Self, rounds: nat) -> bool
        decreases rounds,
    {
        if rounds == 0 {
            later == self
        } else {
            exists|before: Self|
                self.runs_to(before, (rounds - 1) as nat) && #[trigger] before.round_to(later)
        }
    }

    /// The task exists and is over: it finished or faulted.
    pub open spec fn is_over(self, id: int) -> bool {
        0 <= id < self.slots.len() && !(self.slots[id] is Queued) && !(self.slots[id] is Running)
    }

    /// Every task of this state is still there in `later`, and the completion
    /// cell of every task that was over is untouched: no output was taken and
    /// no finished task ran again.
    pub open spec fn keeps_finished(self, later: Self) -> bool {
        &&& self.slots.len() <= later.slots.len()
        &&& forall|id: int| #[trigger] self.is_over(id) ==> later.slots[id] == self.slots[id]
    }

    /// What a poll of the handle of task `id` returns: pending until the task
    /// has finished, then its output, once. A handle whose task faulted, whose
    /// output was already taken, or which names no task of this executor,
    /// reports the fault.
    pub open spec fn handle_poll(self, id: usize) -> Poll<T::Output> {
        if id >= self.slots.len() {
            Poll::Faulted
        } else {
            match self.slots[id as int] {
                Slot::Queued(_) => Poll::Pending,
                Slot::Running => Poll::Pending,
                Slot::Done(output) => Poll::Ready(output),
                Slot::Taken => Poll::Faulted,
                Slot::Faulted => Poll::Faulted,
            }
        }
    }

    /// The state after a poll of the handle of task `id`: an output that was
    /// waiting is now taken; anything else is unchanged.
    pub open spec fn after_handle_poll(self, id: usize) -> Self {
        if self.handle_poll(id) is Ready {
            ExecutorView { queue: self.queue, slots: self.slots.update(id as int, Slot::Taken) }
        } else {
            self
        }
    }

    /// Some handle in the list can never deliver: its poll reports a fault, or
    /// an earlier handle in the list names the same task.
    pub open spec fn join_faulted(self, ids: Seq<usize>) -> bool {
        exists|i: int|
            0 <= i < ids.len() && (self.handle_poll(#[trigger] ids[i]) is Faulted
                || ids.subrange(0, i).contains(ids[i]))
    }

    /// Some handle in the list is still pending.
    pub open spec fn join_pending(self, ids: Seq<usize>) -> bool {
        exists|i: int| 0 <= i < ids.len() && self.handle_poll(#[trigger] ids[i]) is Pending
    }

    /// What joining the handles of the tasks `ids` returns: the outputs of all
    /// of them, in the order of the handles, and only when every one is ready
    /// at once. A handle that can never deliver makes the join report the
    /// fault; otherwise one pending handle keeps the whole join pending.
    pub open spec fn join_poll(self, ids: Seq<usize>) -> Poll<Seq<T::Output>> {
        if self.join_faulted(ids) {
            Poll::Faulted
        } else if self.join_pending(ids) {
            Poll::Pending
        } else {
            Poll::Ready(Seq::new(ids.len(), |i: int| self.slots[ids[i] as int]->Done_0))
        }
    }

    /// The state after joining: if the join was ready every joined output is
    /// now taken, otherwise nothing has changed.
    pub open spec fn after_join(self, ids: Seq<usize>) -> Self {
        if self.join_poll(ids) is Ready {
            ExecutorView {
                queue: self.queue,
                slots: Seq::new(
                    self.slots.len(),
                    |id: int|
                        if names(ids, id) {
                            Slot::Taken
                        } else {
                            self.slots[id]
                        },
                ),
            }
        } else {
            self
        }
    }
}

} // verus!
