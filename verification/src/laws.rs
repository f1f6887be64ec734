//! What holds of the executor's state under its operations.

use vstd::prelude::*;
use crate::model::{names, serve, serve_all, service_order, yield_once, Cycle, ExecutorView, Slot};
use crate::task::{Poll, Task};

verus! {

impl<T: Task> ExecutorView<T> {
    /// A state with the same queue and the same parked tasks is as consistent
    /// as this one.
    pub proof fn lemma_wf_frame(self, next: Self)
        requires
            self.wf(),
            next.queue == self.queue,
            forall|id: usize| #[trigger] next.is_queued(id) == self.is_queued(id),
        ensures
            next.wf(),
    {
        assert forall|i: int| 0 <= i < next.queue.len() implies next.is_queued(
            #[trigger] next.queue[i],
        ) by {
            assert(self.is_queued(self.queue[i]));
        }
        assert forall|id: usize| #[trigger] next.is_queued(id) implies next.queue.contains(id) by {
            assert(self.is_queued(id));
        }
    }

    /// Handing the front task to the driver keeps the queue and the table in
    /// agreement.
    pub proof fn lemma_begin_wf(self)
        requires
            self.wf(),
            self.queue.len() > 0,
        ensures
            self.begin().wf(),
    {
        let front = self.queue[0];
        let next = self.begin();
        assert(self.is_queued(self.queue[0]));
        assert forall|i: int| 0 <= i < next.queue.len() implies next.is_queued(
            #[trigger] next.queue[i],
        ) by {
            assert(next.queue[i] == self.queue[i + 1]);
            assert(self.is_queued(self.queue[i + 1]));
        }
        assert forall|id: usize| #[trigger] next.is_queued(id) implies next.queue.contains(id) by {
            assert(self.is_queued(id));
            let i = choose|i: int| 0 <= i < self.queue.len() && self.queue[i] == id;
            assert(next.queue[i - 1] == id);
        }
    }

    /// Settling a running task keeps the queue and the table in agreement.
    pub proof fn lemma_settle_wf(self, id: usize, task: T, outcome: Poll<T::Output>)
        requires
            self.wf(),
            self.is_running(id),
        ensures
            self.settle(id, task, outcome).wf(),
    {
        let next = self.settle(id, task, outcome);
        if outcome is Pending {
            assert(!self.queue.contains(id)) by {
                if self.queue.contains(id) {
                    let i = choose|i: int| 0 <= i < self.queue.len() && self.queue[i] == id;
                    assert(self.is_queued(self.queue[i]));
                }
            }
            assert forall|i: int| 0 <= i < next.queue.len() implies next.is_queued(
                #[trigger] next.queue[i],
            ) by {
                if i < self.queue.len() {
                    assert(self.is_queued(self.queue[i]));
                }
            }
            assert forall|other: usize| #[trigger] next.is_queued(other) implies next.queue.contains(
                other,
            ) by {
                if other == id {
                    assert(next.queue[self.queue.len() as int] == id);
                } else {
                    assert(self.is_queued(other));
                    let i = choose|i: int| 0 <= i < self.queue.len() && self.queue[i] == other;
                    assert(next.queue[i] == other);
                }
            }
            assert forall|i: int, j: int|
                0 <= i < next.queue.len() && 0 <= j < next.queue.len() && i != j implies next.queue[i]
                != next.queue[j] by {
                if i < self.queue.len() {
                    assert(self.queue.contains(self.queue[i]));
                }
                if j < self.queue.len() {
                    assert(self.queue.contains(self.queue[j]));
                }
            }
        } else {
            assert forall|other: usize| #[trigger]
                next.is_queued(other) == self.is_queued(other) by {}
            self.lemma_wf_frame(next);
        }
    }

    /// Polling a handle keeps the queue and the table in agreement.
    pub proof fn lemma_handle_poll_wf(self, id: usize)
        requires
            self.wf(),
        ensures
            self.after_handle_poll(id).wf(),
    {
        let next = self.after_handle_poll(id);
        assert forall|other: usize| #[trigger] next.is_queued(other) == self.is_queued(other) by {}
        self.lemma_wf_frame(next);
    }

    /// Joining handles keeps the queue and the table in agreement.
    pub proof fn lemma_join_wf(self, ids: Seq<usize>)
        requires
            self.wf(),
        ensures
            self.after_join(ids).wf(),
    {
        let next = self.after_join(ids);
        if self.join_poll(ids) is Ready {
            assert forall|other: usize| #[trigger]
                next.is_queued(other) == self.is_queued(other) by {
                if other < self.slots.len() && names(ids, other as int) {
                    let k = choose|k: int| 0 <= k < ids.len() && #[trigger] ids[k] == other as int;
                    assert(!(self.handle_poll(ids[k]) is Pending));
                }
            }
            self.lemma_wf_frame(next);
        }
    }

    /// Spawning keeps the queue and the table in agreement.
    pub proof fn lemma_spawn_wf(self, task: T)
        requires
            self.wf(),
            self.slots.len() < usize::MAX,
        ensures
            self.spawn(task).wf(),
    {
        let id = self.slots.len() as usize;
        let next = self.spawn(task);
        assert(!self.queue.contains(id)) by {
            if self.queue.contains(id) {
                let i = choose|i: int| 0 <= i < self.queue.len() && self.queue[i] == id;
                assert(self.is_queued(self.queue[i]));
            }
        }
        assert forall|i: int| 0 <= i < next.queue.len() implies next.is_queued(
            #[trigger] next.queue[i],
        ) by {
            if i < self.queue.len() {
                assert(self.is_queued(self.queue[i]));
            }
        }
        assert forall|other: usize| #[trigger] next.is_queued(other) implies next.queue.contains(
            other,
        ) by {
            if other == id {
                assert(next.queue[self.queue.len() as int] == id);
            } else {
                assert(self.is_queued(other));
                let i = choose|i: int| 0 <= i < self.queue.len() && self.queue[i] == other;
                assert(next.queue[i] == other);
            }
        }
        assert(next.queue.no_duplicates()) by {
            assert forall|i: int, j: int|
                0 <= i < next.queue.len() && 0 <= j < next.queue.len() && i != j implies next.queue[i]
                != next.queue[j] by {
                if i < self.queue.len() {
                    assert(self.queue.contains(self.queue[i]));
                }
                if j < self.queue.len() {
                    assert(self.queue.contains(self.queue[j]));
                }
            }
        }
    }
}

impl<T: Task> ExecutorView<T> {
    /// A cycle whose poll spawns nothing serves the queue: the front task
    /// leaves the front and, if it is pending, goes to the back, exactly once.
    pub proof fn lemma_turn_serves(self, task: T, outcome: Poll<T::Output>)
        requires
            self.queue.len() > 0,
        ensures
            self.turn(Seq::empty(), task, outcome).queue == serve(self.queue, outcome is Pending),
    {
    }

    /// Spawning tasks one after the other keeps the queue and the table in
    /// agreement.
    pub proof fn lemma_spawn_all_wf(self, tasks: Seq<T>)
        requires
            self.wf(),
            self.slots.len() + tasks.len() <= usize::MAX,
        ensures
            self.spawn_all(tasks).wf(),
            self.spawn_all(tasks).slots.len() == self.slots.len() + tasks.len(),
        decreases tasks.len(),
    {
        if tasks.len() > 0 {
            self.lemma_spawn_all_wf(tasks.drop_last());
            self.spawn_all(tasks.drop_last()).lemma_spawn_wf(tasks.last());
        }
    }

    /// Spawning two lists of tasks in a row is spawning the two lists put
    /// together.
    pub proof fn lemma_spawn_all_in_stages(self, first: Seq<T>, second: Seq<T>)
        ensures
            self.spawn_all(first).spawn_all(second) == self.spawn_all(first + second),
        decreases second.len(),
    {
        if second.len() == 0 {
            assert(first + second =~= first);
        } else {
            self.lemma_spawn_all_in_stages(first, second.drop_last());
            assert((first + second).drop_last() =~= first + second.drop_last());
            assert((first + second).last() == second.last());
        }
    }

    /// Spawned tasks stand behind everything else: the queue and the table
    /// from before are still there, in front, unchanged.
    pub proof fn lemma_spawn_all_appends(self, tasks: Seq<T>)
        ensures
            self.spawn_all(tasks).queue.len() == self.queue.len() + tasks.len(),
            self.spawn_all(tasks).slots.len() == self.slots.len() + tasks.len(),
            self.spawn_all(tasks).queue.subrange(0, self.queue.len() as int) == self.queue,
            self.spawn_all(tasks).slots.subrange(0, self.slots.len() as int) == self.slots,
            forall|k: int|
                0 <= k < tasks.len() ==> #[trigger] self.spawn_all(tasks).slots[self.slots.len()
                    + k] == Slot::Queued(tasks[k]),
        decreases tasks.len(),
    {
        if tasks.len() == 0 {
            assert(self.queue.subrange(0, self.queue.len() as int) =~= self.queue);
            assert(self.slots.subrange(0, self.slots.len() as int) =~= self.slots);
        } else {
            let before = self.spawn_all(tasks.drop_last());
            self.lemma_spawn_all_appends(tasks.drop_last());
            assert(self.spawn_all(tasks).queue.subrange(0, self.queue.len() as int)
                =~= before.queue.subrange(0, self.queue.len() as int));
            assert(self.spawn_all(tasks).slots.subrange(0, self.slots.len() as int)
                =~= before.slots.subrange(0, self.slots.len() as int));
            assert forall|k: int| 0 <= k < tasks.len() implies #[trigger] self.spawn_all(
                tasks,
            ).slots[self.slots.len() + k] == Slot::Queued(tasks[k]) by {
                if k < tasks.len() - 1 {
                    assert(before.slots[self.slots.len() + k] == Slot::Queued(
                        tasks.drop_last()[k],
                    ));
                }
            }
        }
    }

    /// The ready queue after a scheduling cycle, whatever the poll did: the
    /// front task has left the front, the tasks that it spawned stand behind
    /// the tasks that were waiting, in spawn order, and the polled task itself
    /// stands last if it is pending, and is not queued if it is over.
    pub proof fn lemma_turn_queue(self, spawned: Seq<T>, task: T, outcome: Poll<T::Output>)
        requires
            self.wf(),
            self.queue.len() > 0,
            self.slots.len() + spawned.len() <= usize::MAX,
        ensures
            self.turn(spawned, task, outcome).queue == self.queue.drop_first() + Seq::new(
                spawned.len(),
                |k: int| (self.slots.len() + k) as usize,
            ) + if outcome is Pending {
                seq![self.queue[0]]
            } else {
                Seq::empty()
            },
    {
        let begun = self.begin();
        assert(self.is_queued(self.queue[0]));
        begun.lemma_spawned_ids(spawned);
        let grown = begun.spawn_all(spawned);
        let fresh = Seq::new(spawned.len(), |k: int| (self.slots.len() + k) as usize);
        assert(Seq::new(spawned.len(), |k: int| (begun.slots.len() + k) as usize) =~= fresh);
        if outcome is Pending {
            assert(grown.queue.push(self.queue[0]) =~= self.queue.drop_first() + fresh
                + seq![self.queue[0]]);
        } else {
            assert(grown.queue =~= self.queue.drop_first() + fresh + Seq::<usize>::empty());
        }
    }

    /// Spawned tasks get the next identifiers in order, and these join the
    /// queue behind what was waiting.
    pub proof fn lemma_spawned_ids(self, tasks: Seq<T>)
        requires
            self.slots.len() + tasks.len() <= usize::MAX,
        ensures
            self.spawn_all(tasks).queue == self.queue + Seq::new(
                tasks.len(),
                |k: int| (self.slots.len() + k) as usize,
            ),
        decreases tasks.len(),
    {
        if tasks.len() == 0 {
            assert(self.queue + Seq::new(0, |k: int| (self.slots.len() + k) as usize)
                =~= self.queue);
        } else {
            self.lemma_spawned_ids(tasks.drop_last());
            self.lemma_spawn_all_appends(tasks.drop_last());
            assert(self.spawn_all(tasks).queue =~= self.queue + Seq::new(
                tasks.len(),
                |k: int| (self.slots.len() + k) as usize,
            ));
        }
    }

    /// What the report of a scheduling cycle tells about the state after it.
    /// The polled task is the one that stood first. Reported as requeued, it
    /// is parked again and stands last in the queue; reported as finished or
    /// faulted, its completion cell says so and it is queued no more.
    pub proof fn lemma_report_tells(self, later: Self, report: Cycle)
        requires
            self.wf(),
            self.queue.len() > 0,
            self.turns_to(later, report),
            later.wf(),
        ensures
            report != Cycle::Idle,
            report matches Cycle::Requeued(id) ==> id == self.queue[0] && later.is_queued(id)
                && later.queue.last() == id,
            report matches Cycle::Finished(id) ==> id == self.queue[0] && later.slots[id as int] is Done
                && !later.queue.contains(id),
            report matches Cycle::Faulted(id) ==> id == self.queue[0]
                && later.slots[id as int] is Faulted && !later.queue.contains(id),
    {
        let (spawned, task, outcome) = choose|spawned: Seq<T>, task: T, outcome: Poll<T::Output>|
            later == #[trigger] self.turn(spawned, task, outcome) && report == Cycle::reporting(
                self.queue[0],
                outcome,
            );
        let front = self.queue[0];
        assert(self.is_queued(self.queue[0]));
        self.begin().lemma_spawn_all_appends(spawned);
        let grown = self.begin().spawn_all(spawned);
        assert(grown.slots.subrange(0, self.slots.len() as int)[front as int]
            == grown.slots[front as int]);
        if later.queue.contains(front) && !(outcome is Pending) {
            let i = choose|i: int| 0 <= i < later.queue.len() && later.queue[i] == front;
            assert(later.is_queued(later.queue[i]));
        }
    }

    /// A round of a run takes no output and disturbs no finished task.
    pub proof fn lemma_round_keeps_finished(self, later: Self)
        requires
            self.round_to(later),
        ensures
            self.keeps_finished(later),
    {
        let polled = choose|polled: Self|
            self.grows_to(polled) && polled.wf() && #[trigger] polled.cycles_to(later);
        let spawned = choose|tasks: Seq<T>| polled == #[trigger] self.spawn_all(tasks);
        self.lemma_spawn_all_keeps_finished(spawned);
        if polled.queue.len() > 0 {
            let report = choose|report: Cycle| #[trigger] polled.turns_to(later, report);
            let (born, task, outcome) = choose|born: Seq<T>, task: T, outcome: Poll<T::Output>|
                later == #[trigger] polled.turn(born, task, outcome) && report == Cycle::reporting(
                    polled.queue[0],
                    outcome,
                );
            polled.lemma_turn_keeps_finished(born, task, outcome);
            self.lemma_keeps_finished_in_stages(polled, later);
        }
    }

    /// A run takes no output and disturbs no finished task, however many
    /// rounds it goes through.
    pub proof fn lemma_run_keeps_finished(self, later: Self, rounds: nat)
        requires
            self.runs_to(later, rounds),
        ensures
            self.keeps_finished(later),
        decreases rounds,
    {
        if rounds > 0 {
            let before = choose|before: Self|
                self.runs_to(before, (rounds - 1) as nat) && #[trigger] before.round_to(later);
            self.lemma_run_keeps_finished(before, (rounds - 1) as nat);
            before.lemma_round_keeps_finished(later);
            self.lemma_keeps_finished_in_stages(before, later);
        }
    }

    /// Keeping what is finished is transitive.
    pub proof fn lemma_keeps_finished_in_stages(self, middle: Self, later: Self)
        requires
            self.keeps_finished(middle),
            middle.keeps_finished(later),
        ensures
            self.keeps_finished(later),
    {
        assert forall|id: int| #[trigger] self.is_over(id) implies later.slots[id]
            == self.slots[id] by {
            assert(middle.is_over(id));
        }
    }

    /// Spawning takes no output and disturbs no finished task.
    pub proof fn lemma_spawn_all_keeps_finished(self, tasks: Seq<T>)
        ensures
            self.keeps_finished(self.spawn_all(tasks)),
    {
        self.lemma_spawn_all_appends(tasks);
        let later = self.spawn_all(tasks);
        assert forall|id: int| #[trigger] self.is_over(id) implies later.slots[id]
            == self.slots[id] by {
            assert(later.slots.subrange(0, self.slots.len() as int)[id] == later.slots[id]);
        }
    }

    /// A scheduling cycle takes no output and disturbs no finished task.
    pub proof fn lemma_turn_keeps_finished(self, spawned: Seq<T>, task: T, outcome: Poll<T::Output>)
        requires
            self.wf(),
            self.queue.len() > 0,
        ensures
            self.keeps_finished(self.turn(spawned, task, outcome)),
    {
        let front = self.queue[0];
        let begun = self.begin();
        let grown = begun.spawn_all(spawned);
        let later = self.turn(spawned, task, outcome);
        assert(self.is_queued(self.queue[0]));
        begun.lemma_spawn_all_appends(spawned);
        assert forall|id: int| #[trigger] self.is_over(id) implies later.slots[id]
            == self.slots[id] by {
            assert(grown.slots.subrange(0, begun.slots.len() as int)[id] == grown.slots[id]);
        }
    }

    /// A spawned task is parked unpolled behind everything already queued, and
    /// its handle is pending: spawning runs nothing.
    pub proof fn lemma_spawn_parks(self, task: T)
        requires
            self.slots.len() < usize::MAX,
        ensures
            self.spawn(task).queue.last() == self.slots.len(),
            self.spawn(task).queue.drop_last() == self.queue,
            self.spawn(task).slots.last() == Slot::Queued(task),
            self.spawn(task).slots.drop_last() == self.slots,
            self.spawn(task).handle_poll(self.slots.len() as usize) is Pending,
    {
        assert(self.spawn(task).queue.drop_last() =~= self.queue);
        assert(self.spawn(task).slots.drop_last() =~= self.slots);
    }

    /// A handle is ready exactly when the completion cell of its task holds an
    /// output, so never before the task has finished; and once a poll has
    /// delivered the output, the next poll reports a fault instead of a
    /// second copy.
    pub proof fn lemma_handle_resolves_once(self, id: usize)
        ensures
            self.handle_poll(id) is Ready <==> id < self.slots.len() && self.slots[id as int] is Done,
            self.handle_poll(id) is Ready ==> self.after_handle_poll(id).handle_poll(id) is Faulted,
            !(self.handle_poll(id) is Ready) ==> self.after_handle_poll(id) == self,
    {
    }

    /// A task's fault shows at its own handle and nowhere else: the handle of
    /// the faulted task reports the fault, and a poll of any other handle
    /// returns what it would have returned without the fault.
    pub proof fn lemma_fault_is_local(self, id: usize, task: T, other: usize)
        requires
            self.is_running(id),
            other != id,
        ensures
            self.settle(id, task, Poll::Faulted).handle_poll(id) is Faulted,
            self.settle(id, task, Poll::Faulted).handle_poll(other) == self.handle_poll(other),
            self.settle(id, task, Poll::Faulted).queue == self.queue,
    {
    }

    /// A join is ready exactly when its handles name different tasks and every
    /// one of them is ready at once; the outputs then stand in the order of
    /// the handles.
    pub proof fn lemma_join_all_or_nothing(self, ids: Seq<usize>)
        ensures
            self.join_poll(ids) is Ready <==> ids.no_duplicates() && forall|i: int|
                0 <= i < ids.len() ==> self.handle_poll(#[trigger] ids[i]) is Ready,
            self.join_poll(ids) is Ready ==> self.join_poll(ids)->Ready_0.len() == ids.len()
                && forall|i: int|
                0 <= i < ids.len() ==> Poll::Ready(#[trigger] self.join_poll(ids)->Ready_0[i])
                    == self.handle_poll(ids[i]),
            !(self.join_poll(ids) is Ready) ==> self.after_join(ids) == self,
    {
        if ids.no_duplicates() && (forall|i: int|
            0 <= i < ids.len() ==> self.handle_poll(#[trigger] ids[i]) is Ready) {
            if self.join_faulted(ids) {
                let i = choose|i: int|
                    0 <= i < ids.len() && (self.handle_poll(#[trigger] ids[i]) is Faulted
                        || ids.subrange(0, i).contains(ids[i]));
                let k = choose|k: int|
                    0 <= k < ids.subrange(0, i).len() && ids.subrange(0, i)[k] == ids[i];
                assert(ids[k] == ids[i]);
            }
        }
        if self.join_poll(ids) is Ready {
            assert forall|i: int, j: int| 0 <= i < ids.len() && 0 <= j < ids.len() && i != j implies ids[i]
                != ids[j] by {
                if ids[i] == ids[j] {
                    if i < j {
                        assert(ids.subrange(0, j)[i] == ids[j]);
                    } else {
                        assert(ids.subrange(0, i)[j] == ids[i]);
                    }
                }
            }
        }
    }
}

/// Cycles whose polled tasks are all pending rotate the queue: after `turns`
/// of them the first `turns` tasks stand behind the others, in their old
/// order, and they are the tasks that were polled.
pub proof fn lemma_pending_rotates(queue: Seq<usize>, turns: nat)
    requires
        turns <= queue.len(),
    ensures
        serve_all(queue, Seq::new(turns, |i: int| true)) == queue.subrange(
            turns as int,
            queue.len() as int,
        ) + queue.subrange(0, turns as int),
        service_order(queue, Seq::new(turns, |i: int| true)) == queue.subrange(0, turns as int),
    decreases turns,
{
    let pending = Seq::new(turns, |i: int| true);
    let len = queue.len() as int;
    if turns == 0 {
        assert(queue.subrange(0, len) + queue.subrange(0, 0) =~= queue);
        assert(queue.subrange(0, 0) =~= Seq::<usize>::empty());
    } else {
        let next = serve(queue, true);
        let rest = Seq::new((turns - 1) as nat, |i: int| true);
        assert(pending.drop_first() =~= rest);
        lemma_pending_rotates(next, (turns - 1) as nat);
        assert(next.subrange(turns - 1, len) + next.subrange(0, turns - 1) =~= queue.subrange(
            turns as int,
            len,
        ) + queue.subrange(0, turns as int));
        assert(seq![queue[0]] + next.subrange(0, turns - 1) =~= queue.subrange(0, turns as int));
    }
}

/// Cycles whose polled tasks all finish drain the queue from the front: the
/// first `turns` tasks are polled, in order, and leave.
pub proof fn lemma_ready_drains(queue: Seq<usize>, turns: nat)
    requires
        turns <= queue.len(),
    ensures
        serve_all(queue, Seq::new(turns, |i: int| false)) == queue.subrange(
            turns as int,
            queue.len() as int,
        ),
        service_order(queue, Seq::new(turns, |i: int| false)) == queue.subrange(0, turns as int),
    decreases turns,
{
    let ready = Seq::new(turns, |i: int| false);
    let len = queue.len() as int;
    if turns == 0 {
        assert(queue.subrange(0, len) =~= queue);
        assert(queue.subrange(0, 0) =~= Seq::<usize>::empty());
    } else {
        let next = serve(queue, false);
        let rest = Seq::new((turns - 1) as nat, |i: int| false);
        assert(ready.drop_first() =~= rest);
        lemma_ready_drains(next, (turns - 1) as nat);
        assert(next.subrange(turns - 1, len - 1) =~= queue.subrange(turns as int, len));
        assert(seq![queue[0]] + next.subrange(0, turns - 1) =~= queue.subrange(0, turns as int));
    }
}

/// Running the cycles of `first` and then those of `second` is running the
/// cycles of the two lists put together.
pub proof fn lemma_serve_in_stages(queue: Seq<usize>, first: Seq<bool>, second: Seq<bool>)
    ensures
        serve_all(queue, first + second) == serve_all(serve_all(queue, first), second),
        service_order(queue, first + second) == service_order(queue, first) + service_order(
            serve_all(queue, first),
            second,
        ),
    decreases first.len(),
{
    if first.len() == 0 {
        assert(first + second =~= second);
        assert(Seq::<usize>::empty() + service_order(queue, second) =~= service_order(
            queue,
            second,
        ));
    } else if queue.len() == 0 {
        assert(Seq::<usize>::empty() + Seq::<usize>::empty() =~= Seq::<usize>::empty());
    } else {
        let next = serve(queue, first[0]);
        assert((first + second).drop_first() =~= first.drop_first() + second);
        assert((first + second)[0] == first[0]);
        lemma_serve_in_stages(next, first.drop_first(), second);
        assert(seq![queue[0]] + (service_order(next, first.drop_first()) + service_order(
            serve_all(next, first.drop_first()),
            second,
        )) =~= (seq![queue[0]] + service_order(next, first.drop_first())) + service_order(
            serve_all(next, first.drop_first()),
            second,
        ));
    }
}

/// Round-robin fairness. When every queued task yields once before it
/// finishes, the cycles poll the tasks in queue order twice over: every task
/// has had its first turn before any task has its second, the tasks finish
/// in the order in which they were queued, and the queue ends up empty.
pub proof fn lemma_round_robin(queue: Seq<usize>)
    ensures
        service_order(queue, yield_once(queue.len())) == queue + queue,
        serve_all(queue, yield_once(queue.len())) == Seq::<usize>::empty(),
{
    let count = queue.len();
    let pending = Seq::new(count, |i: int| true);
    let ready = Seq::new(count, |i: int| false);
    assert(yield_once(count) =~= pending + ready);
    lemma_pending_rotates(queue, count);
    assert(queue.subrange(count as int, count as int) + queue.subrange(0, count as int)
        =~= queue);
    assert(queue.subrange(0, count as int) =~= queue);
    lemma_ready_drains(queue, count);
    assert(queue.subrange(count as int, count as int) =~= Seq::<usize>::empty());
    lemma_serve_in_stages(queue, pending, ready);
}

} // verus!
