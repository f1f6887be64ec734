use std::cell::RefCell;
use std::rc::Rc;

use async_executor::{async_yield, Cycle, Executor, Poll, PollContext, Runtime, Task, Yield};

/// A task for the tests: each kind behaves in a fixed way.
enum Job {
    /// Pending `left` more times, then ready with `value`.
    Count { left: usize, value: u64 },
    /// Faults on its first poll.
    Fault,
    /// Writes its token to the log, then yields, for ever.
    Chatter { token: &'static str, log: Rc<RefCell<Vec<&'static str>>>, pause: Option<Yield> },
    /// Counts its polls in the shared cell; pending once, then ready.
    Counted { polls: Rc<RefCell<usize>>, pause: Yield },
    /// On its first poll spawns `children` counting tasks and is ready at once.
    Parent { children: usize },
}

impl Task for Job {
    type Output = u64;

    fn poll(&mut self, context: &mut PollContext<'_, Job>) -> Poll<u64> {
        match self {
            Job::Count { left, value } => {
                if *left == 0 {
                    Poll::Ready(*value)
                } else {
                    *left -= 1;
                    Poll::Pending
                }
            }
            Job::Fault => Poll::Faulted,
            Job::Chatter { token, log, pause } => {
                if let Some(current) = pause {
                    if current.poll_once() == Poll::Pending {
                        return Poll::Pending;
                    }
                }
                log.borrow_mut().push(*token);
                let mut next = async_yield();
                let first = next.poll_once();
                *pause = Some(next);
                assert_eq!(first, Poll::Pending);
                Poll::Pending
            }
            Job::Counted { polls, pause } => {
                *polls.borrow_mut() += 1;
                match pause.poll_once() {
                    Poll::Ready(()) => Poll::Ready(0),
                    _ => Poll::Pending,
                }
            }
            Job::Parent { children } => {
                for child in 0..*children {
                    context.spawn(Job::Count { left: 2, value: child as u64 });
                }
                Poll::Ready(99)
            }
        }
    }
}

#[test]
fn yield_is_pending_once_then_ready() {
    let mut pause = Yield::new();
    assert_eq!(pause.poll_once(), Poll::Pending);
    assert_eq!(pause.poll_once(), Poll::Ready(()));
    assert_eq!(pause.poll_once(), Poll::Ready(()));
    assert_eq!(pause.poll_once(), Poll::Ready(()));
}

#[test]
fn async_yield_gives_a_fresh_yield() {
    let mut first = async_yield();
    let mut second = async_yield();
    assert_eq!(first.poll_once(), Poll::Pending);
    assert_eq!(first.poll_once(), Poll::Ready(()));
    assert_eq!(second.poll_once(), Poll::Pending);
    assert_eq!(second.poll_once(), Poll::Ready(()));
}

#[test]
fn yield_as_a_task_is_pending_once_and_spawns_nothing() {
    let mut executor: Executor<Yield> = Executor::new();
    let handle = executor.spawn(Yield::new());
    assert_eq!(executor.run_cycle(), Cycle::Requeued(0));
    assert_eq!(executor.queue_len(), 1);
    assert_eq!(executor.task_count(), 1);
    assert_eq!(executor.run_cycle(), Cycle::Finished(0));
    assert_eq!(executor.queue_len(), 0);
    assert_eq!(executor.task_count(), 1);
    assert_eq!(executor.poll_handle(&handle), Poll::Ready(()));
}

#[test]
fn runtime_is_first_in_first_out() {
    let mut runtime = Runtime::new();
    assert_eq!(runtime.len(), 0);
    runtime.task_push_back(7);
    runtime.task_push_back(3);
    runtime.task_push_back(5);
    assert_eq!(runtime.len(), 3);
    assert_eq!(runtime.task_pop_front(), Some(7));
    runtime.task_push_back(7);
    assert_eq!(runtime.task_pop_front(), Some(3));
    assert_eq!(runtime.task_pop_front(), Some(5));
    assert_eq!(runtime.task_pop_front(), Some(7));
    assert_eq!(runtime.len(), 0);
}

#[test]
fn runtime_pop_on_empty_queue_is_none() {
    let mut runtime = Runtime::new();
    assert_eq!(runtime.task_pop_front(), None);
    assert_eq!(runtime.len(), 0);
    runtime.task_push_back(1);
    assert_eq!(runtime.task_pop_front(), Some(1));
    assert_eq!(runtime.task_pop_front(), None);
}

#[test]
fn new_executor_is_empty() {
    let mut executor: Executor<Job> = Executor::new();
    assert_eq!(executor.task_count(), 0);
    assert_eq!(executor.queue_len(), 0);
    assert!(executor.is_idle());
    assert_eq!(executor.run_cycle(), Cycle::Idle);
    assert!(executor.next_task().is_none());
}

#[test]
fn spawn_returns_before_the_task_is_polled() {
    let polls = Rc::new(RefCell::new(0usize));
    let mut executor: Executor<Job> = Executor::new();
    let handle = executor.spawn(Job::Counted { polls: polls.clone(), pause: Yield::new() });
    assert_eq!(*polls.borrow(), 0);
    assert_eq!(handle.id(), 0);
    assert_eq!(executor.queue_len(), 1);
    assert_eq!(executor.task_count(), 1);
    assert_eq!(executor.poll_handle(&handle), Poll::Pending);
    assert_eq!(*polls.borrow(), 0);
    assert_eq!(executor.run_cycle(), Cycle::Requeued(0));
    assert_eq!(*polls.borrow(), 1);
}

#[test]
fn spawn_numbers_tasks_in_order() {
    let mut executor: Executor<Job> = Executor::new();
    let first = executor.spawn(Job::Count { left: 0, value: 1 });
    let second = executor.spawn(Job::Count { left: 0, value: 2 });
    let third = executor.spawn(Job::Count { left: 0, value: 3 });
    assert_eq!((first.id(), second.id(), third.id()), (0, 1, 2));
    assert_eq!(executor.queue_len(), 3);
    assert_eq!(executor.task_count(), 3);
}

#[test]
fn next_task_takes_the_front_and_settle_requeues_at_the_back() {
    let mut executor: Executor<Job> = Executor::new();
    executor.spawn(Job::Count { left: 5, value: 10 });
    executor.spawn(Job::Count { left: 5, value: 11 });
    executor.spawn(Job::Count { left: 5, value: 12 });
    let (id, task) = executor.next_task().unwrap();
    assert_eq!(id, 0);
    assert!(matches!(task, Job::Count { left: 5, value: 10 }));
    assert_eq!(executor.queue_len(), 2);
    assert!(executor.settle(id, task, Poll::Pending));
    assert_eq!(executor.queue_len(), 3);
    let (id, _) = executor.next_task().unwrap();
    assert_eq!(id, 1);
    let (id, _) = executor.next_task().unwrap();
    assert_eq!(id, 2);
    let (id, _) = executor.next_task().unwrap();
    assert_eq!(id, 0);
    assert!(executor.next_task().is_none());
}

#[test]
fn settle_ready_fills_the_completion_cell() {
    let mut executor: Executor<Job> = Executor::new();
    let handle = executor.spawn(Job::Count { left: 0, value: 10 });
    let (id, task) = executor.next_task().unwrap();
    assert_eq!(executor.poll_handle(&handle), Poll::Pending);
    assert!(executor.settle(id, task, Poll::Ready(41)));
    assert_eq!(executor.queue_len(), 0);
    assert_eq!(executor.poll_handle(&handle), Poll::Ready(41));
}

#[test]
fn settle_refuses_a_task_that_is_not_running() {
    let mut executor: Executor<Job> = Executor::new();
    let handle = executor.spawn(Job::Count { left: 0, value: 10 });
    assert!(!executor.settle(0, Job::Fault, Poll::Ready(1)));
    assert!(!executor.settle(5, Job::Fault, Poll::Pending));
    assert_eq!(executor.queue_len(), 1);
    assert_eq!(executor.task_count(), 1);
    assert_eq!(executor.poll_handle(&handle), Poll::Pending);
    let (id, task) = executor.next_task().unwrap();
    assert!(executor.settle(id, task, Poll::Faulted));
    assert!(!executor.settle(id, Job::Fault, Poll::Pending));
    assert_eq!(executor.queue_len(), 0);
    assert_eq!(executor.poll_handle(&handle), Poll::Faulted);
}

#[test]
fn run_cycle_reports_what_it_did() {
    let mut executor: Executor<Job> = Executor::new();
    executor.spawn(Job::Count { left: 1, value: 10 });
    executor.spawn(Job::Fault);
    assert_eq!(executor.run_cycle(), Cycle::Requeued(0));
    assert_eq!(executor.run_cycle(), Cycle::Faulted(1));
    assert_eq!(executor.run_cycle(), Cycle::Finished(0));
    assert_eq!(executor.run_cycle(), Cycle::Idle);
    assert_eq!(executor.run_cycle(), Cycle::Idle);
}

#[test]
fn tasks_that_yield_once_are_served_round_robin() {
    let mut executor: Executor<Yield> = Executor::new();
    for _ in 0..4 {
        executor.spawn(Yield::new());
    }
    let mut reports = Vec::new();
    for _ in 0..9 {
        reports.push(executor.run_cycle());
    }
    assert_eq!(
        reports,
        vec![
            Cycle::Requeued(0),
            Cycle::Requeued(1),
            Cycle::Requeued(2),
            Cycle::Requeued(3),
            Cycle::Finished(0),
            Cycle::Finished(1),
            Cycle::Finished(2),
            Cycle::Finished(3),
            Cycle::Idle,
        ]
    );
}

#[test]
fn run_completes_every_yield_once_task() {
    let mut executor: Executor<Yield> = Executor::new();
    let handles: Vec<_> = (0..5).map(|_| executor.spawn(async_yield())).collect();
    assert_eq!(executor.run(Yield::new(), 100), Poll::Ready(()));
    assert!(executor.is_idle());
    for handle in &handles {
        assert_eq!(executor.poll_handle(handle), Poll::Ready(()));
    }
}

#[test]
fn run_returns_only_when_the_queue_is_drained() {
    let mut executor: Executor<Job> = Executor::new();
    let result = executor.run(Job::Parent { children: 3 }, 1000);
    assert_eq!(result, Poll::Ready(99));
    assert!(executor.is_idle());
    assert_eq!(executor.task_count(), 3);
    let handles: Vec<_> = (0..3).map(|_| executor.spawn(Job::Count { left: 0, value: 0 })).collect();
    assert_eq!((handles[0].id(), handles[2].id()), (3, 5));
}

#[test]
fn run_with_too_few_cycles_is_pending_and_keeps_the_tasks() {
    let mut executor: Executor<Job> = Executor::new();
    executor.spawn(Job::Count { left: 10, value: 1 });
    assert_eq!(executor.run(Job::Count { left: 0, value: 7 }, 3), Poll::Pending);
    assert_eq!(executor.queue_len(), 1);
    assert_eq!(executor.run(Job::Count { left: 0, value: 7 }, 100), Poll::Ready(7));
    assert!(executor.is_idle());
}

#[test]
fn run_with_no_cycles_polls_nothing() {
    let polls = Rc::new(RefCell::new(0usize));
    let mut executor: Executor<Job> = Executor::new();
    executor.spawn(Job::Counted { polls: polls.clone(), pause: Yield::new() });
    let root = Job::Counted { polls: polls.clone(), pause: Yield::new() };
    assert_eq!(executor.run(root, 0), Poll::Pending);
    assert_eq!(*polls.borrow(), 0);
    assert_eq!(executor.queue_len(), 1);
}

#[test]
fn run_reports_a_fault_of_the_root() {
    let mut executor: Executor<Job> = Executor::new();
    executor.spawn(Job::Count { left: 0, value: 1 });
    assert_eq!(executor.run(Job::Fault, 10), Poll::Faulted);
}

#[test]
fn run_polls_the_root_every_cycle_until_it_is_ready() {
    let polls = Rc::new(RefCell::new(0usize));
    let mut executor: Executor<Job> = Executor::new();
    executor.spawn(Job::Count { left: 4, value: 1 });
    let root = Job::Counted { polls: polls.clone(), pause: Yield::new() };
    assert_eq!(executor.run(root, 50), Poll::Ready(0));
    assert_eq!(*polls.borrow(), 2);
    assert!(executor.is_idle());
}

#[test]
fn block_on_polls_only_the_given_future() {
    let polls = Rc::new(RefCell::new(0usize));
    let mut executor: Executor<Job> = Executor::new();
    let handle = executor.spawn(Job::Counted { polls: polls.clone(), pause: Yield::new() });
    assert_eq!(executor.block_on(Job::Count { left: 3, value: 8 }, 10), Poll::Ready(8));
    assert_eq!(*polls.borrow(), 0);
    assert_eq!(executor.queue_len(), 1);
    assert_eq!(executor.poll_handle(&handle), Poll::Pending);
}

#[test]
fn block_on_gives_up_when_the_polls_run_out() {
    let mut executor: Executor<Job> = Executor::new();
    assert_eq!(executor.block_on(Job::Count { left: 3, value: 8 }, 3), Poll::Pending);
    assert_eq!(executor.block_on(Job::Count { left: 3, value: 8 }, 4), Poll::Ready(8));
    assert_eq!(executor.block_on(Job::Count { left: 0, value: 8 }, 0), Poll::Pending);
    assert_eq!(executor.block_on(Job::Fault, 5), Poll::Faulted);
}

#[test]
fn two_chattering_tasks_alternate() {
    let log = Rc::new(RefCell::new(Vec::new()));
    let mut executor: Executor<Job> = Executor::new();
    executor.spawn(Job::Chatter { token: "AAAAAA", log: log.clone(), pause: None });
    executor.spawn(Job::Chatter { token: "BBBBBB", log: log.clone(), pause: None });
    let result = executor.run(Job::Count { left: usize::MAX, value: 0 }, 40);
    assert_eq!(result, Poll::Pending);
    let log = log.borrow();
    assert!(log.len() >= 10);
    for (position, token) in log.iter().enumerate() {
        let expected = if position % 2 == 0 { "AAAAAA" } else { "BBBBBB" };
        assert_eq!(*token, expected);
    }
    assert_eq!(executor.queue_len(), 2);
}

#[test]
fn tasks_spawned_by_a_poll_join_the_back_of_the_queue() {
    let mut executor: Executor<Job> = Executor::new();
    executor.spawn(Job::Count { left: 1, value: 0 });
    executor.spawn(Job::Parent { children: 2 });
    executor.spawn(Job::Count { left: 1, value: 0 });
    let mut reports = Vec::new();
    for _ in 0..6 {
        reports.push(executor.run_cycle());
    }
    assert_eq!(
        reports,
        vec![
            Cycle::Requeued(0),
            Cycle::Finished(1),
            Cycle::Requeued(2),
            Cycle::Finished(0),
            Cycle::Requeued(3),
            Cycle::Requeued(4),
        ]
    );
    assert_eq!(executor.task_count(), 5);
    assert_eq!(executor.queue_len(), 3);
}

#[test]
fn block_on_queues_what_the_future_spawns_but_serves_nothing() {
    let mut executor: Executor<Job> = Executor::new();
    let waiting = executor.spawn(Job::Count { left: 0, value: 5 });
    assert_eq!(executor.block_on(Job::Parent { children: 2 }, 10), Poll::Ready(99));
    assert_eq!(executor.task_count(), 3);
    assert_eq!(executor.queue_len(), 3);
    assert_eq!(executor.poll_handle(&waiting), Poll::Pending);
    assert_eq!(executor.run_cycle(), Cycle::Finished(0));
    assert_eq!(executor.run_cycle(), Cycle::Requeued(1));
    assert_eq!(executor.run_cycle(), Cycle::Requeued(2));
}

#[test]
fn run_takes_no_output_from_a_completion_cell() {
    let mut executor: Executor<Job> = Executor::new();
    let early = executor.spawn(Job::Count { left: 0, value: 31 });
    let broken = executor.spawn(Job::Fault);
    assert_eq!(executor.run(Job::Count { left: 0, value: 1 }, 10), Poll::Ready(1));
    executor.spawn(Job::Count { left: 3, value: 32 });
    assert_eq!(executor.run(Job::Count { left: 0, value: 2 }, 10), Poll::Ready(2));
    assert_eq!(executor.poll_handle(&early), Poll::Ready(31));
    assert_eq!(executor.poll_handle(&broken), Poll::Faulted);
}
