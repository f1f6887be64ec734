//! The runtime and the executor.

use vstd::prelude::*;
use std::collections::VecDeque;
use crate::context::PollContext;
use crate::model::{handle_ids, names, Cycle, ExecutorView, Slot};
use crate::queue::{
    held, locked_len, locked_new, locked_pop_front, locked_push_back, queued, LockedQueue,
};
use crate::task::{Poll, Task};
use crate::waker::{noop_waker, request_repoll};

verus! {

/// The runtime: the ready queue of task identifiers, in service order.
pub struct Runtime {
    task_queue: LockedQueue,
}

impl View for Runtime {
    type V = Seq<usize>;

    /// The queued identifiers, front first.
    closed spec fn view(&self) -> Seq<usize> {
        queued(self.task_queue)
    }
}

impl Runtime {
    /// The lock around the queue is free, as it is between any two
    /// operations of the runtime.
    pub closed spec fn wf(&self) -> bool {
        !held(self.task_queue)
    }

    /// A runtime with nothing queued.
    pub fn new() -> (runtime: Self)
        ensures
            runtime@ == Seq::<usize>::empty(),
            runtime.wf(),
    {
        Runtime { task_queue: locked_new() }
    }

    /// Removes and returns the task at the front, or `None` when nothing is
    /// ready. The lock is held for this one operation only.
    pub fn task_pop_front(&mut self) -> (front: Option<usize>)
        requires
            old(self).wf(),
        ensures
            old(self)@.len() == 0 ==> front.is_none() && final(self)@ == old(self)@,
            old(self)@.len() > 0 ==> front == Some(old(self)@[0]) && final(self)@ == old(self)@.drop_first(),
            final(self).wf(),
    {
        locked_pop_front(&mut self.task_queue)
    }

    /// Puts a task at the back of the queue. The lock is held for this one
    /// operation only.
    pub fn task_push_back(&mut self, task: usize)
        requires
            old(self).wf(),
        ensures
            final(self)@ == old(self)@.push(task),
            final(self).wf(),
    {
        locked_push_back(&mut self.task_queue, task)
    }

    /// The number of queued tasks.
    pub fn len(&self) -> (len: usize)
        requires
            self.wf(),
        ensures
            len == self@.len(),
    {
        locked_len(&self.task_queue)
    }
}

/// A handle on a spawned task, through which its output is read.
#[derive(Debug)]
pub struct JoinHandle {
    id: usize,
}

impl View for JoinHandle {
    type V = usize;

    /// The identifier of the task that the handle belongs to.
    closed spec fn view(&self) -> usize {
        self.id
    }
}

impl JoinHandle {
    /// The handle of the task with the given identifier.
    pub(crate) fn of(id: usize) -> (handle: Self)
        ensures
            handle@ == id,
    {
        JoinHandle { id }
    }

    /// The identifier of the task that the handle belongs to.
    pub fn id(&self) -> (id: usize)
        ensures
            id == self@,
    {
        self.id
    }
}

/// The queue and the table of an executor, as one value that can be moved out
/// while both are being changed.
struct Scheduler<T: Task> {
    runtime: Runtime,
    slots: Vec<Slot<T>>,
}

impl<T: Task> View for Scheduler<T> {
    type V = ExecutorView<T>;

    closed spec fn view(&self) -> ExecutorView<T> {
        ExecutorView { queue: self.runtime@, slots: self.slots@ }
    }
}

impl<T: Task> Scheduler<T> {
    /// The queue and the table agree, and the lock around the queue is free.
    spec fn wf(&self) -> bool {
        self@.wf() && self.runtime.wf()
    }
}

/// A single-threaded cooperative executor.
pub struct Executor<T: Task> {
    state: Scheduler<T>,
    waker: core::task::Waker,
}

impl<T: Task> View for Executor<T> {
    type V = ExecutorView<T>;

    closed spec fn view(&self) -> ExecutorView<T> {
        self.state@
    }
}

impl<T: Task> Executor<T> {
    #[verifier::type_invariant]
    spec fn consistent(self) -> bool {
        self.state.wf()
    }

    /// Moves the state out, leaving an empty one behind. The invariant ties the
    /// queue to the table, so the two are changed outside the executor and put
    /// back together.
    fn take_state(&mut self) -> (state: Scheduler<T>)
        ensures
            state@ == old(self)@,
            state.wf(),
    {
        proof {
            use_type_invariant(&*self);
        }
        let mut state = Scheduler { runtime: Runtime::new(), slots: Vec::new() };
        core::mem::swap(&mut self.state, &mut state);
        state
    }

    /// An executor with no tasks.
    pub fn new() -> (executor: Self)
        ensures
            executor@ == ExecutorView::<T>::empty(),
    {
        let state = Scheduler { runtime: Runtime::new(), slots: Vec::new() };
        Executor { state, waker: noop_waker() }
    }

    /// Spawns a task: it is parked, unpolled, at the back of the ready queue,
    /// and the call returns at once with its handle.
    pub fn spawn(&mut self, future: T) -> (handle: JoinHandle)
        ensures
            handle@ == old(self)@.slots.len(),
            final(self)@ == old(self)@.spawn(future),
            final(self)@.wf(),
    {
        let mut state = self.take_state();
        let id = state.slots.len();
        state.slots.push(Slot::Queued(future));
        state.runtime.task_push_back(id);
        proof {
            assert(state.slots@.len() == state.slots.len());
            old(self)@.lemma_spawn_wf(future);
        }
        self.state = state;
        JoinHandle { id }
    }

    /// The number of tasks spawned so far.
    pub fn task_count(&self) -> (count: usize)
        ensures
            count == self@.slots.len(),
    {
        self.state.slots.len()
    }

    /// The number of tasks in the ready queue.
    pub fn queue_len(&self) -> (len: usize)
        ensures
            len == self@.queue.len(),
    {
        proof {
            use_type_invariant(self);
        }
        self.state.runtime.len()
    }

    /// Whether the ready queue is empty.
    pub fn is_idle(&self) -> (idle: bool)
        ensures
            idle == (self@.queue.len() == 0),
    {
        proof {
            use_type_invariant(self);
        }
        self.state.runtime.len() == 0
    }

    /// The wake signal that the driver hands to what it polls. Waking it does
    /// nothing: every pending task is polled again on a later turn anyway.
    pub fn waker(&self) -> (waker: &core::task::Waker)
        ensures
            *waker == self.wake_signal(),
    {
        &self.waker
    }

    /// The executor's own wake signal: the one that it was made with, and that
    /// a pending handle wakes.
    pub closed spec fn wake_signal(&self) -> core::task::Waker {
        self.waker
    }

    /// Takes the task at the front of the ready queue for polling: it leaves
    /// the queue and is marked as running. `None` means that nothing is ready
    /// right now.
    pub fn next_task(&mut self) -> (next: Option<(usize, T)>)
        ensures
            old(self)@.queue.len() == 0 ==> next.is_none() && final(self)@ == old(self)@,
            old(self)@.queue.len() > 0 ==> next == Some(
                (old(self)@.queue[0], old(self)@.front_task()),
            ) && final(self)@ == old(self)@.begin(),
            final(self)@.wf(),
    {
        let mut state = self.take_state();
        let next = match state.runtime.task_pop_front() {
            None => None,
            Some(id) => {
                assert(old(self)@.is_queued(old(self)@.queue[0]));
                let mut slot = Slot::Running;
                core::mem::swap(&mut state.slots[id], &mut slot);
                proof {
                    old(self)@.lemma_begin_wf();
                }
                match slot {
                    Slot::Queued(task) => Some((id, task)),
                    _ => None,
                }
            },
        };
        self.state = state;
        next
    }

    /// Settles a running task after its poll. A pending task is parked again
    /// and goes to the back of the ready queue; a finished one leaves its
    /// output in its completion cell; a faulted one is marked as faulted.
    /// Returns `false`, and changes nothing, when `id` names no running task.
    pub fn settle(&mut self, id: usize, task: T, outcome: Poll<T::Output>) -> (accepted: bool)
        ensures
            accepted == old(self)@.is_running(id),
            accepted ==> final(self)@ == old(self)@.settle(id, task, outcome),
            !accepted ==> final(self)@ == old(self)@,
            final(self)@.wf(),
    {
        let mut state = self.take_state();
        let running = id < state.slots.len() && match &state.slots[id] {
            Slot::Running => true,
            _ => false,
        };
        if running {
            proof {
                old(self)@.lemma_settle_wf(id, task, outcome);
            }
            match outcome {
                Poll::Pending => {
                    state.slots.set(id, Slot::Queued(task));
                    state.runtime.task_push_back(id);
                },
                Poll::Ready(output) => {
                    state.slots.set(id, Slot::Done(output));
                },
                Poll::Faulted => {
                    state.slots.set(id, Slot::Faulted);
                },
            }
        }
        self.state = state;
        running
    }

    /// Puts spawned tasks into the ready queue, in order.
    fn take_in(&mut self, tasks: VecDeque<T>)
        ensures
            final(self)@ == old(self)@.spawn_all(tasks@),
            final(self)@.wf(),
    {
        let ghost start = self@;
        let ghost wanted = tasks@;
        let mut tasks = tasks;
        proof {
            use_type_invariant(&*self);
        }
        while tasks.len() > 0
            invariant
                self@.wf(),
                tasks@.len() <= wanted.len(),
                self@ == start.spawn_all(wanted.subrange(0, wanted.len() - tasks@.len())),
                tasks@ == wanted.subrange(wanted.len() - tasks@.len(), wanted.len() as int),
            decreases tasks@.len(),
        {
            let ghost done = wanted.len() - tasks@.len();
            match tasks.pop_front() {
                Some(task) => {
                    proof {
                        assert(task == wanted[done]);
                        assert(wanted.subrange(0, done + 1).drop_last() =~= wanted.subrange(
                            0,
                            done,
                        ));
                        assert(tasks@ =~= wanted.subrange(done + 1, wanted.len() as int));
                    }
                    let _ = self.spawn(task);
                },
                None => {},
            }
        }
        proof {
            assert(wanted.subrange(0, wanted.len() as int) =~= wanted);
        }
    }

    /// Polls a task once, with this executor as its context, and takes in
    /// what the poll spawned.
    fn poll_task(&mut self, task: &mut T) -> (outcome: Poll<T::Output>)
        ensures
            old(self)@.grows_to(final(self)@),
            final(self)@.wf(),
    {
        let mut context = PollContext::new(&*self);
        let outcome = task.poll(&mut context);
        let spawned = context.into_spawned();
        self.take_in(spawned);
        outcome
    }

    /// One scheduling cycle: takes the front task and polls it once; takes
    /// in the tasks that the poll spawned; then settles the polled task, so that
    /// a pending task goes to the back of the queue, behind what it spawned.
    /// With nothing ready the cycle is idle and changes nothing.
    pub fn run_cycle(&mut self) -> (report: Cycle)
        ensures
            old(self)@.queue.len() == 0 ==> report == Cycle::Idle && final(self)@ == old(self)@,
            old(self)@.queue.len() > 0 ==> old(self)@.turns_to(final(self)@, report),
            old(self)@.keeps_finished(final(self)@),
            final(self)@.wf(),
    {
        proof {
            use_type_invariant(&*self);
        }
        match self.next_task() {
            None => Cycle::Idle,
            Some((id, task)) => {
                let ghost begun = self@;
                let mut task = task;
                let outcome = self.poll_task(&mut task);
                let ghost spawned = choose|tasks: Seq<T>| self@ == begun.spawn_all(tasks);
                let ghost decided = outcome;
                let report = match &outcome {
                    Poll::Pending => Cycle::Requeued(id),
                    Poll::Ready(_) => Cycle::Finished(id),
                    Poll::Faulted => Cycle::Faulted(id),
                };
                proof {
                    begun.lemma_spawn_all_appends(spawned);
                    assert(self@.slots.subrange(0, begun.slots.len() as int)[id as int]
                        == self@.slots[id as int]);
                    old(self)@.lemma_turn_keeps_finished(spawned, task, decided);
                }
                let accepted = self.settle(id, task, outcome);
                assert(accepted);
                assert(self@ == old(self)@.turn(spawned, task, decided));
                report
            },
        }
    }

    /// Drives `root` together with the ready queue for at most `cycles`
    /// rounds. Each round polls `root`, unless it is ready already, and then
    /// runs one scheduling cycle. The run is complete once `root` is ready and
    /// the queue is empty, which is looked at after each round: the result is
    /// then `root`'s output. A fault of `root` ends the run at once, before
    /// the cycle of that round. `Pending` means that the rounds ran out
    /// first; the tasks still queued stay with the executor. A run takes no
    /// output from a completion cell.
    pub fn run(&mut self, root: T, cycles: usize) -> (result: Poll<T::Output>)
        ensures
            match result {
                Poll::Ready(_) => final(self)@.queue.len() == 0 && exists|rounds: nat|
                    1 <= rounds <= cycles && #[trigger] old(self)@.runs_to(final(self)@, rounds),
                Poll::Pending => old(self)@.runs_to(final(self)@, cycles as nat),
                Poll::Faulted => exists|rounds: nat, before: ExecutorView<T>|
                    rounds < cycles && #[trigger] old(self)@.runs_to(before, rounds)
                        && before.grows_to(final(self)@),
            },
            old(self)@.keeps_finished(final(self)@),
            final(self)@.wf(),
    {
        let ghost start = self@;
        let mut root = root;
        let mut output: Option<T::Output> = None;
        let mut left: usize = cycles;
        proof {
            use_type_invariant(&*self);
        }
        while left > 0
            invariant
                left <= cycles,
                start == old(self)@,
                start.runs_to(self@, (cycles - left) as nat),
                start.keeps_finished(self@),
                self@.wf(),
            decreases left,
        {
            let ghost before = self@;
            let ghost rounds = (cycles - left) as nat;
            left = left - 1;
            if output.is_none() {
                let outcome = self.poll_task(&mut root);
                proof {
                    let spawned = choose|tasks: Seq<T>| self@ == before.spawn_all(tasks);
                    before.lemma_spawn_all_keeps_finished(spawned);
                    start.lemma_keeps_finished_in_stages(before, self@);
                }
                match outcome {
                    Poll::Ready(value) => {
                        output = Some(value);
                    },
                    Poll::Faulted => {
                        assert(start.runs_to(before, rounds) && before.grows_to(self@));
                        return Poll::Faulted;
                    },
                    Poll::Pending => {},
                }
            } else {
                assert(self@ == before.spawn_all(Seq::empty()));
            }
            let ghost polled = self@;
            let _ = self.run_cycle();
            proof {
                start.lemma_keeps_finished_in_stages(polled, self@);
                assert(before.grows_to(polled) && polled.wf() && polled.cycles_to(self@));
                assert(start.runs_to(before, rounds) && before.round_to(self@));
                assert(start.runs_to(self@, rounds + 1));
            }
            if output.is_some() && self.is_idle() {
                return Poll::Ready(output.unwrap());
            }
        }
        Poll::Pending
    }

    /// Polls `future`, and nothing else, until it is ready, at most `polls`
    /// times. Tasks in the ready queue are not served: all that happens to the
    /// executor is that the tasks which `future` spawned join the queue.
    /// `Pending` means that the polls ran out first.
    pub fn block_on(&mut self, future: T, polls: usize) -> (result: Poll<T::Output>)
        ensures
            old(self)@.grows_to(final(self)@),
            polls == 0 ==> result is Pending && final(self)@ == old(self)@,
            final(self)@.wf(),
    {
        let ghost start = self@;
        let mut future = future;
        let mut left: usize = polls;
        proof {
            use_type_invariant(&*self);
            assert(start == start.spawn_all(Seq::empty()));
        }
        while left > 0
            invariant
                left <= polls,
                start == old(self)@,
                left == polls ==> self@ == start,
                start.grows_to(self@),
                self@.wf(),
            decreases left,
        {
            let ghost before = self@;
            left = left - 1;
            let outcome = self.poll_task(&mut future);
            proof {
                let earlier = choose|tasks: Seq<T>| before == start.spawn_all(tasks);
                let spawned = choose|tasks: Seq<T>| self@ == before.spawn_all(tasks);
                start.lemma_spawn_all_in_stages(earlier, spawned);
            }
            match outcome {
                Poll::Pending => {},
                finished => {
                    return finished;
                },
            }
        }
        Poll::Pending
    }

    /// Looks at a handle without taking anything: pending until the task has
    /// finished, then a reference to its output, which stays in the completion
    /// cell. A handle that can never deliver reports the fault.
    pub fn peek_handle(&self, handle: &JoinHandle) -> (result: Poll<&T::Output>)
        ensures
            match result {
                Poll::Ready(output) => self@.handle_poll(handle@) == Poll::Ready(*output),
                Poll::Pending => self@.handle_poll(handle@) is Pending,
                Poll::Faulted => self@.handle_poll(handle@) is Faulted,
            },
    {
        let id = handle.id;
        if id >= self.state.slots.len() {
            Poll::Faulted
        } else {
            match &self.state.slots[id] {
                Slot::Queued(_) => Poll::Pending,
                Slot::Running => Poll::Pending,
                Slot::Done(output) => Poll::Ready(output),
                Slot::Taken => Poll::Faulted,
                Slot::Faulted => Poll::Faulted,
            }
        }
    }

    /// Where the handle of task `id` stands, without taking anything.
    fn peek(&self, id: usize) -> (status: Poll<()>)
        ensures
            status is Ready <==> self@.handle_poll(id) is Ready,
            status is Pending <==> self@.handle_poll(id) is Pending,
            status is Faulted <==> self@.handle_poll(id) is Faulted,
    {
        if id >= self.state.slots.len() {
            Poll::Faulted
        } else {
            match &self.state.slots[id] {
                Slot::Queued(_) => Poll::Pending,
                Slot::Running => Poll::Pending,
                Slot::Done(_) => Poll::Ready(()),
                Slot::Taken => Poll::Faulted,
                Slot::Faulted => Poll::Faulted,
            }
        }
    }

    /// Polls a handle. Until its task has finished the poll is pending, asks
    /// to be polled again, and takes nothing. Once the task has finished, the
    /// poll returns its output and empties the completion cell: the output is
    /// delivered exactly once. If the task faulted, if the output was taken
    /// before, or if the handle belongs to no task of this executor, the poll
    /// reports the fault.
    pub fn poll_handle(&mut self, handle: &JoinHandle) -> (result: Poll<T::Output>)
        ensures
            result == old(self)@.handle_poll(handle@),
            final(self)@ == old(self)@.after_handle_poll(handle@),
            final(self)@.wf(),
    {
        let id = handle.id;
        match self.peek(id) {
            Poll::Pending => {
                proof {
                    use_type_invariant(&*self);
                }
                request_repoll(&self.waker);
                Poll::Pending
            },
            Poll::Faulted => {
                proof {
                    use_type_invariant(&*self);
                }
                Poll::Faulted
            },
            Poll::Ready(_) => {
                let mut state = self.take_state();
                let mut slot = Slot::Taken;
                core::mem::swap(&mut state.slots[id], &mut slot);
                proof {
                    old(self)@.lemma_handle_poll_wf(id);
                }
                self.state = state;
                match slot {
                    Slot::Done(output) => Poll::Ready(output),
                    _ => Poll::Faulted,
                }
            },
        }
    }

    /// Whether some handle before position `upto` names the task `id`.
    fn named_before(handles: &Vec<JoinHandle>, upto: usize, id: usize) -> (found: bool)
        requires
            upto <= handles.len(),
        ensures
            found == handle_ids(handles@).subrange(0, upto as int).contains(id),
    {
        let ghost ids = handle_ids(handles@);
        let mut j: usize = 0;
        while j < upto
            invariant
                j <= upto <= handles.len(),
                ids == handle_ids(handles@),
                !ids.subrange(0, j as int).contains(id),
            decreases upto - j,
        {
            if handles[j].id == id {
                assert(ids.subrange(0, upto as int)[j as int] == id);
                return true;
            }
            j = j + 1;
            assert forall|k: int| 0 <= k < j implies ids.subrange(0, j as int)[k] != id by {
                if k < j - 1 {
                    assert(ids.subrange(0, j - 1)[k] == ids[k]);
                }
            }
        }
        false
    }

    /// Joins several handles: ready only when every one of them is ready at
    /// once, with the outputs in the order of the handles. While some task is
    /// unfinished the join is pending and takes nothing, whatever the order in
    /// which the tasks finish. A handle that can never deliver (its task
    /// faulted, its output was taken before, it belongs to no task of this
    /// executor, or the list names its task twice) makes the join report the
    /// fault, and nothing is taken.
    pub fn join(&mut self, handles: &Vec<JoinHandle>) -> (result: Poll<Vec<T::Output>>)
        ensures
            match result {
                Poll::Ready(outputs) => old(self)@.join_poll(handle_ids(handles@)) == Poll::Ready(
                    outputs@,
                ),
                Poll::Pending => old(self)@.join_poll(handle_ids(handles@)) is Pending,
                Poll::Faulted => old(self)@.join_poll(handle_ids(handles@)) is Faulted,
            },
            final(self)@ == old(self)@.after_join(handle_ids(handles@)),
            final(self)@.wf(),
    {
        let ghost start = self@;
        let ghost ids = handle_ids(handles@);
        let count = handles.len();
        let mut faulted = false;
        let mut pending = false;
        let mut i: usize = 0;
        proof {
            use_type_invariant(&*self);
        }
        while i < count
            invariant
                i <= count == handles.len(),
                ids == handle_ids(handles@),
                self@ == start,
                faulted == start.join_faulted(ids.subrange(0, i as int)),
                pending == start.join_pending(ids.subrange(0, i as int)),
            decreases count - i,
        {
            let id = handles[i].id;
            let ghost before = ids.subrange(0, i as int);
            let ghost after = ids.subrange(0, i + 1);
            let repeated = Self::named_before(handles, i, id);
            let status = self.peek(id);
            proof {
                assert(after[i as int] == id);
                assert(after.subrange(0, i as int) == before);
                assert forall|k: int| 0 <= k < i implies after[k] == before[k]
                    && after.subrange(0, k) == before.subrange(0, k) by {}
                if start.join_faulted(before) {
                    let k = choose|k: int|
                        0 <= k < before.len() && (start.handle_poll(#[trigger] before[k]) is Faulted
                            || before.subrange(0, k).contains(before[k]));
                    assert(start.handle_poll(after[k]) is Faulted || after.subrange(0, k).contains(
                        after[k],
                    ));
                }
                if start.join_pending(before) {
                    let k = choose|k: int|
                        0 <= k < before.len() && start.handle_poll(#[trigger] before[k]) is Pending;
                    assert(start.handle_poll(after[k]) is Pending);
                }
                if start.join_faulted(after) && !(repeated || status is Faulted) {
                    let k = choose|k: int|
                        0 <= k < after.len() && (start.handle_poll(#[trigger] after[k]) is Faulted
                            || after.subrange(0, k).contains(after[k]));
                    assert(start.handle_poll(before[k]) is Faulted || before.subrange(
                        0,
                        k,
                    ).contains(before[k]));
                }
                if start.join_pending(after) && !(status is Pending) {
                    let k = choose|k: int|
                        0 <= k < after.len() && start.handle_poll(#[trigger] after[k]) is Pending;
                    assert(start.handle_poll(before[k]) is Pending);
                }
            }
            match status {
                Poll::Faulted => {
                    faulted = true;
                },
                Poll::Pending => {
                    pending = true;
                },
                Poll::Ready(_) => {},
            }
            if repeated {
                faulted = true;
            }
            i = i + 1;
        }
        assert(ids.subrange(0, count as int) == ids);
        if faulted {
            return Poll::Faulted;
        }
        if pending {
            request_repoll(&self.waker);
            return Poll::Pending;
        }
        let mut state = self.take_state();
        let mut outputs: Vec<T::Output> = Vec::new();
        let mut i: usize = 0;
        while i < count
            invariant
                i <= count == handles.len(),
                ids == handle_ids(handles@),
                start.wf(),
                !start.join_faulted(ids),
                !start.join_pending(ids),
                state.runtime.wf(),
                state@.queue == start.queue,
                state@.slots.len() == start.slots.len(),
                forall|id: int|
                    0 <= id < start.slots.len() ==> #[trigger] state@.slots[id] == if names(
                        ids.subrange(0, i as int),
                        id,
                    ) {
                        Slot::Taken
                    } else {
                        start.slots[id]
                    },
                outputs@.len() == i,
                forall|k: int|
                    0 <= k < i ==> #[trigger] outputs@[k] == start.slots[ids[k] as int]->Done_0,
            decreases count - i,
        {
            let id = handles[i].id;
            proof {
                assert(ids[i as int] == id);
                assert(!(start.handle_poll(ids[i as int]) is Faulted));
                assert(!(start.handle_poll(ids[i as int]) is Pending));
                assert(!ids.subrange(0, i as int).contains(ids[i as int]));
            }
            let ghost parked = state@.slots;
            let mut slot = Slot::Taken;
            core::mem::swap(&mut state.slots[id], &mut slot);
            match slot {
                Slot::Done(output) => {
                    outputs.push(output);
                },
                _ => {},
            }
            proof {
                let before = ids.subrange(0, i as int);
                let after = ids.subrange(0, i + 1);
                assert(after[i as int] == id);
                assert(state@.slots == parked.update(id as int, Slot::Taken));
                assert forall|other: int| 0 <= other < start.slots.len() implies
                    #[trigger] state@.slots[other] == if names(after, other) {
                        Slot::Taken
                    } else {
                        start.slots[other]
                    } by {
                    if names(before, other) {
                        let k = choose|k: int| 0 <= k < before.len() && #[trigger] before[k] == other;
                        assert(after[k] == other);
                    } else if names(after, other) {
                        let k = choose|k: int| 0 <= k < after.len() && #[trigger] after[k] == other;
                        if k < i {
                            assert(before[k] == other);
                        }
                    }
                }
            }
            i = i + 1;
        }
        proof {
            assert(ids.subrange(0, count as int) == ids);
            assert(state@.slots =~= start.after_join(ids).slots);
            assert(outputs@ =~= start.join_poll(ids)->Ready_0);
            start.lemma_join_wf(ids);
        }
        self.state = state;
        Poll::Ready(outputs)
    }
}

} // verus!
