use task_irq::executor::Executor;
use task_irq::queue::TaskQueue;
use task_irq::state::WaitOutcome;
use task_irq::task::{TaskState, WakeReason};

fn items(queue: &TaskQueue) -> Vec<usize> {
    let mut out = Vec::new();
    let mut i = 0;
    while let Some(task) = queue.get(i) {
        out.push(task);
        i += 1;
    }
    out
}

fn ready(executor: &Executor) -> Vec<usize> {
    items(executor.ready_queue())
}

fn waiters(executor: &Executor, queue: usize) -> Vec<usize> {
    items(executor.wait_queue(queue).unwrap())
}

fn sleepers(executor: &Executor) -> Vec<(u64, usize)> {
    let mut out = Vec::new();
    let mut i = 0;
    while let Some(entry) = executor.sleep_queue().get(i) {
        out.push((entry.deadline, entry.task));
        i += 1;
    }
    out
}

fn state(executor: &Executor, task: usize) -> TaskState {
    executor.task(task).unwrap().state
}

fn last_wake(executor: &Executor, task: usize) -> Option<WakeReason> {
    executor.task(task).unwrap().last_wake
}

/// How many of the ready queue, the sleep queue and the wait queues hold `task`.
fn links(executor: &Executor, task: usize) -> (usize, usize, usize) {
    let in_ready = ready(executor).iter().filter(|t| **t == task).count();
    let in_sleep = sleepers(executor).iter().filter(|(_, t)| *t == task).count();
    let mut in_wait = 0;
    for queue in 0..executor.queue_count() {
        in_wait += waiters(executor, queue).iter().filter(|t| **t == task).count();
    }
    (in_ready, in_sleep, in_wait)
}

/// Every task is linked exactly where its state says, and nowhere else.
fn check_ownership(executor: &Executor) {
    let mut running = 0;
    for task in 0..executor.task_count() {
        let expected = match state(executor, task) {
            TaskState::Ready => (1, 0, 0),
            TaskState::Running => {
                running += 1;
                assert_eq!(executor.current(), Some(task));
                (0, 0, 0)
            }
            TaskState::Sleeping { until } => {
                assert!(sleepers(executor).contains(&(until, task)));
                (0, 1, 0)
            }
            TaskState::Waiting { queue, deadline } => {
                assert!(waiters(executor, queue).contains(&task));
                match deadline {
                    Some(d) => {
                        assert!(sleepers(executor).contains(&(d, task)));
                        (0, 1, 1)
                    }
                    None => (0, 0, 1),
                }
            }
            TaskState::Terminated => (0, 0, 0),
        };
        assert_eq!(links(executor, task), expected, "task {}", task);
    }
    assert_eq!(running, if executor.current().is_some() { 1 } else { 0 });
    let timers = sleepers(executor);
    for pair in timers.windows(2) {
        assert!(pair[0].0 <= pair[1].0);
    }
}

#[test]
fn boot_has_one_running_task() {
    let executor = Executor::new(0xb007);
    assert_eq!(executor.current(), Some(0));
    assert_eq!(executor.task_count(), 1);
    assert_eq!(executor.queue_count(), 0);
    assert_eq!(executor.now(), 0);
    assert!(executor.irqs_enabled());
    let main = executor.task(0).unwrap();
    assert_eq!(main.id, 0);
    assert_eq!(main.state, TaskState::Running);
    assert_eq!(main.context, 0xb007);
    assert_eq!(main.last_wake, None);
    assert_eq!(executor.task(1), None);
    assert_eq!(ready(&executor), Vec::<usize>::new());
    assert_eq!(executor.ready_len(), 0);
    assert!(executor.wait_queue(0).is_none());
    check_ownership(&executor);
}

#[test]
fn spawn_appends_to_the_ready_queue() {
    let mut executor = Executor::new(0);
    assert_eq!(executor.spawn(11), 1);
    assert_eq!(executor.spawn(22), 2);
    assert_eq!(executor.spawn(33), 3);
    assert_eq!(ready(&executor), vec![1, 2, 3]);
    assert_eq!(executor.current(), Some(0));
    let second = executor.task(2).unwrap();
    assert_eq!(second.id, 2);
    assert_eq!(second.state, TaskState::Ready);
    assert_eq!(second.context, 22);
    assert!(second.irq_saved);
    assert!(executor.irqs_enabled());
    check_ownership(&executor);
}

#[test]
fn yield_with_nothing_ready_changes_nothing() {
    let mut executor = Executor::new(0);
    executor.yield_now();
    assert_eq!(executor.current(), Some(0));
    assert_eq!(state(&executor, 0), TaskState::Running);
    assert_eq!(ready(&executor), Vec::<usize>::new());
    assert!(executor.irqs_enabled());
}

#[test]
fn yield_rotates_the_ready_queue() {
    let mut executor = Executor::new(0);
    executor.spawn(0);
    executor.spawn(0);
    executor.yield_now();
    assert_eq!(executor.current(), Some(1));
    assert_eq!(ready(&executor), vec![2, 0]);
    assert_eq!(state(&executor, 0), TaskState::Ready);
    assert_eq!(state(&executor, 1), TaskState::Running);
    executor.yield_now();
    assert_eq!(executor.current(), Some(2));
    assert_eq!(ready(&executor), vec![0, 1]);
    executor.yield_now();
    assert_eq!(executor.current(), Some(0));
    assert_eq!(ready(&executor), vec![1, 2]);
    assert!(executor.irqs_enabled());
    check_ownership(&executor);
}

#[test]
fn exit_ends_the_task_for_good() {
    let mut executor = Executor::new(0);
    executor.spawn(0);
    executor.yield_now();
    assert_eq!(executor.current(), Some(1));
    executor.exit();
    assert_eq!(state(&executor, 1), TaskState::Terminated);
    assert_eq!(executor.current(), Some(0));
    assert_eq!(ready(&executor), Vec::<usize>::new());
    executor.yield_now();
    assert_eq!(executor.current(), Some(0));
    assert_eq!(links(&executor, 1), (0, 0, 0));
    check_ownership(&executor);
}

#[test]
fn exit_of_the_last_task_leaves_the_executor_idle() {
    let mut executor = Executor::new(0);
    executor.exit();
    assert_eq!(executor.current(), None);
    assert!(executor.irqs_enabled());
    executor.exit();
    executor.sleep(5);
    assert_eq!(executor.current(), None);
    assert_eq!(sleepers(&executor), Vec::<(u64, usize)>::new());
    let id = executor.spawn(0);
    assert_eq!(state(&executor, id), TaskState::Ready);
    assert_eq!(executor.current(), None);
    executor.yield_now();
    assert_eq!(executor.current(), Some(id));
    check_ownership(&executor);
}

#[test]
fn sleep_blocks_until_the_deadline() {
    let mut executor = Executor::new(0);
    executor.spawn(0);
    executor.tick(1_000);
    executor.sleep(250);
    assert_eq!(state(&executor, 0), TaskState::Sleeping { until: 1_250 });
    assert_eq!(sleepers(&executor), vec![(1_250, 0)]);
    assert_eq!(executor.current(), Some(1));
    assert_eq!(last_wake(&executor, 0), None);
    executor.tick(1_249);
    assert_eq!(state(&executor, 0), TaskState::Sleeping { until: 1_250 });
    assert_eq!(ready(&executor), Vec::<usize>::new());
    executor.tick(1_250);
    assert_eq!(state(&executor, 0), TaskState::Ready);
    assert_eq!(last_wake(&executor, 0), Some(WakeReason::TimedOut));
    assert_eq!(ready(&executor), vec![0]);
    assert_eq!(sleepers(&executor), Vec::<(u64, usize)>::new());
    assert_eq!(executor.current(), Some(1));
    check_ownership(&executor);
}

#[test]
fn sleep_of_zero_is_one_yield() {
    let mut slept = Executor::new(0);
    let mut yielded = Executor::new(0);
    for executor in [&mut slept, &mut yielded] {
        executor.spawn(0);
        executor.spawn(0);
    }
    slept.sleep(0);
    yielded.yield_now();
    assert_eq!(slept.current(), yielded.current());
    assert_eq!(slept.current(), Some(1));
    assert_eq!(ready(&slept), ready(&yielded));
    assert_eq!(ready(&slept), vec![2, 0]);
    assert_eq!(sleepers(&slept), Vec::<(u64, usize)>::new());
    assert_eq!(state(&slept, 0), TaskState::Ready);
}

#[test]
fn sleep_of_zero_with_nothing_ready_returns_at_once() {
    let mut executor = Executor::new(0);
    executor.sleep(0);
    assert_eq!(executor.current(), Some(0));
    assert_eq!(sleepers(&executor), Vec::<(u64, usize)>::new());
}

#[test]
fn sleep_until_a_past_deadline_is_one_yield() {
    let mut executor = Executor::new(0);
    executor.spawn(0);
    executor.tick(500);
    executor.sleep_until(500);
    assert_eq!(executor.current(), Some(1));
    assert_eq!(state(&executor, 0), TaskState::Ready);
    assert_eq!(ready(&executor), vec![0]);
    executor.sleep_until(499);
    assert_eq!(executor.current(), Some(0));
    assert_eq!(sleepers(&executor), Vec::<(u64, usize)>::new());
    executor.sleep_until(501);
    assert_eq!(state(&executor, 0), TaskState::Sleeping { until: 501 });
}

#[test]
fn sleep_at_the_end_of_the_clock_does_not_block() {
    let mut executor = Executor::new(0);
    executor.spawn(0);
    executor.tick(u64::MAX);
    executor.sleep(10);
    assert_eq!(state(&executor, 0), TaskState::Ready);
    assert_eq!(executor.current(), Some(1));
}

#[test]
fn sleep_deadline_stops_at_the_end_of_the_clock() {
    let mut executor = Executor::new(0);
    executor.spawn(0);
    executor.tick(u64::MAX - 3);
    executor.sleep(10);
    assert_eq!(state(&executor, 0), TaskState::Sleeping { until: u64::MAX });
    executor.tick(u64::MAX);
    assert_eq!(state(&executor, 0), TaskState::Ready);
}

#[test]
fn tick_wakes_in_deadline_order_ties_in_order_of_arrival() {
    let mut executor = Executor::new(0);
    for _ in 0..5 {
        executor.spawn(0);
    }
    // 0 sleeps 30, 1 sleeps 10, 2 sleeps 30, 3 sleeps 20, 4 sleeps 10; 5 stays.
    for duration in [30, 10, 30, 20, 10] {
        executor.sleep(duration);
    }
    assert_eq!(executor.current(), Some(5));
    assert_eq!(sleepers(&executor), vec![(10, 1), (10, 4), (20, 3), (30, 0), (30, 2)]);
    check_ownership(&executor);
    executor.tick(20);
    assert_eq!(ready(&executor), vec![1, 4, 3]);
    assert_eq!(sleepers(&executor), vec![(30, 0), (30, 2)]);
    executor.tick(100);
    assert_eq!(ready(&executor), vec![1, 4, 3, 0, 2]);
    assert_eq!(sleepers(&executor), Vec::<(u64, usize)>::new());
    assert_eq!(executor.current(), Some(5));
    check_ownership(&executor);
}

#[test]
fn clock_never_moves_back() {
    let mut executor = Executor::new(0);
    executor.tick(70);
    assert_eq!(executor.now(), 70);
    executor.tick(40);
    assert_eq!(executor.now(), 70);
    executor.tick(70);
    assert_eq!(executor.now(), 70);
    executor.tick(71);
    assert_eq!(executor.now(), 71);
}

#[test]
fn tick_switches_no_task() {
    let mut executor = Executor::new(0);
    executor.spawn(0);
    executor.sleep(5);
    assert_eq!(executor.current(), Some(1));
    executor.tick(5);
    assert_eq!(executor.current(), Some(1));
    assert_eq!(ready(&executor), vec![0]);
    assert!(executor.irqs_enabled());
}

#[test]
fn all_asleep_idles_until_a_tick_and_a_yield() {
    let mut executor = Executor::new(0);
    executor.sleep(10);
    assert_eq!(executor.current(), None);
    assert!(executor.irqs_enabled());
    executor.yield_now();
    assert_eq!(executor.current(), None);
    executor.tick(10);
    assert_eq!(executor.current(), None);
    assert_eq!(ready(&executor), vec![0]);
    executor.yield_now();
    assert_eq!(executor.current(), Some(0));
    assert_eq!(state(&executor, 0), TaskState::Running);
    assert!(executor.irqs_enabled());
    check_ownership(&executor);
}

#[test]
fn add_wait_queue_numbers_the_queues() {
    let mut executor = Executor::new(0);
    assert_eq!(executor.add_wait_queue(), 0);
    assert_eq!(executor.add_wait_queue(), 1);
    assert_eq!(executor.queue_count(), 2);
    assert_eq!(waiters(&executor, 0), Vec::<usize>::new());
    assert_eq!(waiters(&executor, 1), Vec::<usize>::new());
    assert!(executor.wait_queue(2).is_none());
}

#[test]
fn waiters_are_woken_in_the_order_in_which_they_blocked() {
    let mut executor = Executor::new(0);
    let queue = executor.add_wait_queue();
    for _ in 0..4 {
        executor.spawn(0);
    }
    // The main task yields to 1; tasks 1, 2 and 3 wait in that order; 4 stays.
    executor.yield_now();
    for expected in [1, 2, 3] {
        assert_eq!(executor.current(), Some(expected));
        executor.wait(queue);
    }
    assert_eq!(executor.current(), Some(4));
    assert_eq!(waiters(&executor, queue), vec![1, 2, 3]);
    assert_eq!(state(&executor, 2), TaskState::Waiting { queue, deadline: None });
    assert_eq!(ready(&executor), vec![0]);
    check_ownership(&executor);
    assert!(executor.notify_one(queue, false));
    assert_eq!(ready(&executor), vec![0, 1]);
    assert!(executor.notify_one(queue, false));
    assert_eq!(ready(&executor), vec![0, 1, 2]);
    assert!(executor.notify_one(queue, false));
    assert_eq!(ready(&executor), vec![0, 1, 2, 3]);
    assert_eq!(waiters(&executor, queue), Vec::<usize>::new());
    assert!(!executor.notify_one(queue, false));
    assert_eq!(ready(&executor), vec![0, 1, 2, 3]);
    for task in [1, 2, 3] {
        assert_eq!(state(&executor, task), TaskState::Ready);
        assert_eq!(last_wake(&executor, task), Some(WakeReason::Notified));
    }
    assert_eq!(executor.current(), Some(4));
    check_ownership(&executor);
}

#[test]
fn notify_on_an_empty_queue_wakes_nobody() {
    let mut executor = Executor::new(0);
    let queue = executor.add_wait_queue();
    executor.spawn(0);
    assert!(!executor.notify_one(queue, false));
    assert_eq!(executor.current(), Some(0));
    assert_eq!(ready(&executor), vec![1]);
    executor.notify_all(queue, false);
    assert_eq!(executor.current(), Some(0));
    assert_eq!(ready(&executor), vec![1]);
    // With a yield asked for, the caller still yields.
    assert!(!executor.notify_one(queue, true));
    assert_eq!(executor.current(), Some(1));
    assert_eq!(ready(&executor), vec![0]);
}

#[test]
fn notify_all_wakes_every_waiter_oldest_first() {
    let mut executor = Executor::new(0);
    let queue = executor.add_wait_queue();
    let other = executor.add_wait_queue();
    for _ in 0..4 {
        executor.spawn(0);
    }
    executor.yield_now();
    executor.wait(queue);
    executor.wait(other);
    executor.wait(queue);
    assert_eq!(executor.current(), Some(4));
    assert_eq!(waiters(&executor, queue), vec![1, 3]);
    assert_eq!(waiters(&executor, other), vec![2]);
    executor.notify_all(queue, false);
    assert_eq!(ready(&executor), vec![0, 1, 3]);
    assert_eq!(waiters(&executor, queue), Vec::<usize>::new());
    assert_eq!(waiters(&executor, other), vec![2]);
    assert_eq!(state(&executor, 2), TaskState::Waiting { queue: other, deadline: None });
    assert_eq!(executor.current(), Some(4));
    check_ownership(&executor);
}

#[test]
fn notify_with_resched_yields_to_the_head_of_the_ready_queue() {
    let mut executor = Executor::new(0);
    let queue = executor.add_wait_queue();
    executor.spawn(0);
    executor.yield_now();
    executor.wait(queue);
    assert_eq!(executor.current(), Some(0));
    assert_eq!(ready(&executor), Vec::<usize>::new());
    assert!(executor.notify_one(queue, true));
    assert_eq!(executor.current(), Some(1));
    assert_eq!(state(&executor, 1), TaskState::Running);
    assert_eq!(last_wake(&executor, 1), Some(WakeReason::Notified));
    assert_eq!(ready(&executor), vec![0]);
    assert!(executor.irqs_enabled());
    check_ownership(&executor);
}

#[test]
fn wait_until_with_the_condition_true_does_not_block() {
    let mut executor = Executor::new(0);
    let queue = executor.add_wait_queue();
    executor.spawn(0);
    assert_eq!(executor.wait_until(queue, true), WaitOutcome::Satisfied);
    assert_eq!(executor.current(), Some(0));
    assert_eq!(waiters(&executor, queue), Vec::<usize>::new());
    assert_eq!(ready(&executor), vec![1]);
}

#[test]
fn wait_until_blocks_and_checks_again_after_each_wake() {
    let mut executor = Executor::new(0);
    let queue = executor.add_wait_queue();
    executor.spawn(0);
    let mut flag = false;
    // The main task finds the condition false and blocks.
    assert_eq!(executor.wait_until(queue, flag), WaitOutcome::Blocked);
    assert_eq!(executor.current(), Some(1));
    assert_eq!(waiters(&executor, queue), vec![0]);
    // A wake with the condition still false: the waiter blocks once more.
    assert!(executor.notify_one(queue, true));
    assert_eq!(executor.current(), Some(0));
    assert_eq!(executor.wait_until(queue, flag), WaitOutcome::Blocked);
    assert_eq!(executor.current(), Some(1));
    assert_eq!(waiters(&executor, queue), vec![0]);
    // The condition turns true after the failed check; the notification that
    // follows finds the waiter in the queue.
    flag = true;
    assert!(executor.notify_one(queue, true));
    assert_eq!(executor.current(), Some(0));
    assert_eq!(executor.wait_until(queue, flag), WaitOutcome::Satisfied);
    assert_eq!(executor.current(), Some(0));
    assert_eq!(waiters(&executor, queue), Vec::<usize>::new());
    check_ownership(&executor);
}

#[test]
fn waiter_stays_queued_through_other_events() {
    let mut executor = Executor::new(0);
    let queue = executor.add_wait_queue();
    let other = executor.add_wait_queue();
    executor.spawn(0);
    executor.spawn(0);
    executor.yield_now();
    executor.wait(queue);
    assert_eq!(waiters(&executor, queue), vec![1]);
    let before = executor.task(1).unwrap();
    executor.spawn(0);
    executor.yield_now();
    executor.tick(1_000);
    executor.sleep(5);
    executor.notify_one(other, true);
    executor.notify_all(other, false);
    executor.add_wait_queue();
    executor.tick(2_000);
    executor.yield_now();
    assert_eq!(waiters(&executor, queue), vec![1]);
    assert_eq!(executor.task(1).unwrap(), before);
    check_ownership(&executor);
    executor.notify_all(queue, false);
    assert_eq!(state(&executor, 1), TaskState::Ready);
    check_ownership(&executor);
}

#[test]
fn timed_wait_times_out() {
    let mut executor = Executor::new(0);
    let queue = executor.add_wait_queue();
    executor.spawn(0);
    executor.tick(1_000);
    let (outcome, deadline) = executor.wait_timeout_until(queue, 100, false);
    assert_eq!(outcome, WaitOutcome::Blocked);
    assert_eq!(deadline, 1_100);
    assert_eq!(state(&executor, 0), TaskState::Waiting { queue, deadline: Some(1_100) });
    assert_eq!(waiters(&executor, queue), vec![0]);
    assert_eq!(sleepers(&executor), vec![(1_100, 0)]);
    assert_eq!(links(&executor, 0), (0, 1, 1));
    check_ownership(&executor);
    executor.tick(1_099);
    assert_eq!(waiters(&executor, queue), vec![0]);
    executor.tick(1_100);
    assert_eq!(state(&executor, 0), TaskState::Ready);
    assert_eq!(last_wake(&executor, 0), Some(WakeReason::TimedOut));
    assert_eq!(links(&executor, 0), (1, 0, 0));
    executor.yield_now();
    assert_eq!(executor.current(), Some(0));
    assert_eq!(executor.wait_deadline_until(queue, deadline, false), WaitOutcome::TimedOut);
    assert_eq!(executor.current(), Some(0));
    assert_eq!(links(&executor, 0), (0, 0, 0));
    check_ownership(&executor);
}

#[test]
fn timed_wait_with_no_time_left_does_not_block() {
    let mut executor = Executor::new(0);
    let queue = executor.add_wait_queue();
    executor.spawn(0);
    executor.tick(40);
    assert_eq!(executor.wait_timeout_until(queue, 0, false), (WaitOutcome::TimedOut, 40));
    assert_eq!(executor.wait_timeout_until(queue, 0, true), (WaitOutcome::Satisfied, 40));
    assert_eq!(executor.wait_deadline_until(queue, 39, false), WaitOutcome::TimedOut);
    assert_eq!(executor.wait_deadline_until(queue, 39, true), WaitOutcome::Satisfied);
    assert_eq!(executor.current(), Some(0));
    assert_eq!(waiters(&executor, queue), Vec::<usize>::new());
    assert_eq!(sleepers(&executor), Vec::<(u64, usize)>::new());
}

#[test]
fn timed_wait_satisfied_by_a_notification() {
    let mut executor = Executor::new(0);
    let queue = executor.add_wait_queue();
    executor.spawn(0);
    let mut flag = false;
    let (outcome, deadline) = executor.wait_timeout_until(queue, 100, flag);
    assert_eq!(outcome, WaitOutcome::Blocked);
    flag = true;
    assert!(executor.notify_one(queue, true));
    assert_eq!(executor.current(), Some(0));
    assert_eq!(executor.wait_deadline_until(queue, deadline, flag), WaitOutcome::Satisfied);
    assert_eq!(last_wake(&executor, 0), Some(WakeReason::Notified));
    assert_eq!(sleepers(&executor), Vec::<(u64, usize)>::new());
    check_ownership(&executor);
}

#[test]
fn timed_wait_blocks_again_with_the_same_deadline() {
    let mut executor = Executor::new(0);
    let queue = executor.add_wait_queue();
    executor.spawn(0);
    let (_, deadline) = executor.wait_timeout_until(queue, 100, false);
    executor.tick(60);
    assert!(executor.notify_one(queue, true));
    assert_eq!(executor.current(), Some(0));
    assert_eq!(executor.wait_deadline_until(queue, deadline, false), WaitOutcome::Blocked);
    assert_eq!(state(&executor, 0), TaskState::Waiting { queue, deadline: Some(100) });
    assert_eq!(sleepers(&executor), vec![(100, 0)]);
    check_ownership(&executor);
}

#[test]
fn notification_before_timeout_wakes_once() {
    let mut executor = Executor::new(0);
    let queue = executor.add_wait_queue();
    executor.spawn(0);
    executor.wait_timeout_until(queue, 100, false);
    assert_eq!(executor.current(), Some(1));
    // Both are pending; the notification is handled first.
    assert!(executor.notify_one(queue, false));
    assert_eq!(last_wake(&executor, 0), Some(WakeReason::Notified));
    assert_eq!(links(&executor, 0), (1, 0, 0));
    executor.tick(100);
    assert_eq!(last_wake(&executor, 0), Some(WakeReason::Notified));
    assert_eq!(links(&executor, 0), (1, 0, 0));
    assert_eq!(ready(&executor), vec![0]);
    check_ownership(&executor);
}

#[test]
fn timeout_before_notification_wakes_once() {
    let mut executor = Executor::new(0);
    let queue = executor.add_wait_queue();
    executor.spawn(0);
    executor.wait_timeout_until(queue, 100, false);
    assert_eq!(executor.current(), Some(1));
    // Both are pending; the tick is handled first.
    executor.tick(100);
    assert_eq!(last_wake(&executor, 0), Some(WakeReason::TimedOut));
    assert_eq!(links(&executor, 0), (1, 0, 0));
    assert!(!executor.notify_one(queue, false));
    executor.notify_all(queue, false);
    assert_eq!(last_wake(&executor, 0), Some(WakeReason::TimedOut));
    assert_eq!(links(&executor, 0), (1, 0, 0));
    assert_eq!(ready(&executor), vec![0]);
    check_ownership(&executor);
}

#[test]
fn timeout_takes_a_waiter_from_the_middle_of_the_queue() {
    let mut executor = Executor::new(0);
    let queue = executor.add_wait_queue();
    for _ in 0..4 {
        executor.spawn(0);
    }
    executor.yield_now();
    executor.wait(queue);
    executor.wait_timeout_until(queue, 50, false);
    executor.wait(queue);
    assert_eq!(waiters(&executor, queue), vec![1, 2, 3]);
    executor.tick(50);
    assert_eq!(waiters(&executor, queue), vec![1, 3]);
    assert_eq!(ready(&executor), vec![0, 2]);
    check_ownership(&executor);
}

#[test]
fn interrupts_are_enabled_after_every_suspension_point() {
    let mut executor = Executor::new(0);
    let queue = executor.add_wait_queue();
    executor.spawn(0);
    executor.spawn(0);
    assert!(executor.irqs_enabled());
    executor.yield_now();
    assert!(executor.irqs_enabled());
    executor.sleep(10);
    assert!(executor.irqs_enabled());
    executor.wait(queue);
    assert!(executor.irqs_enabled());
    assert_eq!(executor.wait_until(queue, false), WaitOutcome::Blocked);
    assert!(executor.irqs_enabled());
    assert_eq!(executor.current(), None);
    executor.tick(10);
    assert!(executor.irqs_enabled());
    executor.yield_now();
    assert!(executor.irqs_enabled());
    executor.notify_all(queue, true);
    assert!(executor.irqs_enabled());
    assert_eq!(executor.wait_timeout_until(queue, 5, false).0, WaitOutcome::Blocked);
    assert!(executor.irqs_enabled());
    for task in 0..executor.task_count() {
        assert!(executor.task(task).unwrap().irq_saved);
    }
}

#[test]
fn interrupt_flag_travels_with_the_task() {
    let mut executor = Executor::new(0);
    executor.spawn(0);
    executor.disable_irqs();
    assert!(!executor.irqs_enabled());
    // The main task yields masked: the next task still starts unmasked.
    executor.yield_now();
    assert_eq!(executor.current(), Some(1));
    assert!(executor.irqs_enabled());
    assert!(!executor.task(0).unwrap().irq_saved);
    // Back on the main task the mask is as the main task left it.
    executor.yield_now();
    assert_eq!(executor.current(), Some(0));
    assert!(!executor.irqs_enabled());
    executor.enable_irqs();
    assert!(executor.irqs_enabled());
}

#[test]
fn operations_without_a_switch_keep_the_flag() {
    let mut executor = Executor::new(0);
    let queue = executor.add_wait_queue();
    executor.disable_irqs();
    executor.spawn(0);
    assert!(!executor.irqs_enabled());
    executor.tick(5);
    assert!(!executor.irqs_enabled());
    executor.notify_one(queue, false);
    executor.notify_all(queue, false);
    assert!(!executor.irqs_enabled());
    executor.enable_irqs();
    executor.assert_irq_enabled();
    executor.assert_irq_enabled_and_disabled();
    assert!(executor.irqs_enabled());
    executor.disable_irqs();
    executor.assert_irq_disabled();
}

#[test]
fn waiters_are_woken_in_order_by_notifications_that_yield() {
    let mut executor = Executor::new(0);
    let queue = executor.add_wait_queue();
    for _ in 0..4 {
        executor.spawn(0);
    }
    executor.yield_now();
    for _ in 0..3 {
        executor.wait(queue);
    }
    assert_eq!(waiters(&executor, queue), vec![1, 2, 3]);
    assert_eq!(executor.current(), Some(4));
    // Each call is made by the task that runs then, and yields.
    let mut woken = Vec::new();
    for expected in [1, 2, 3] {
        assert!(executor.notify_one(queue, true));
        woken.push(expected);
        let left: Vec<usize> = (expected + 1..=3).collect();
        assert_eq!(waiters(&executor, queue), left);
        for task in 1..=3 {
            let state = state(&executor, task);
            if woken.contains(&task) {
                assert!(state == TaskState::Ready || state == TaskState::Running);
                assert_eq!(last_wake(&executor, task), Some(WakeReason::Notified));
            } else {
                assert_eq!(state, TaskState::Waiting { queue, deadline: None });
            }
        }
        check_ownership(&executor);
    }
    assert!(!executor.notify_one(queue, true));
}

#[test]
fn notification_that_yields_puts_the_caller_behind_the_woken_task() {
    let mut executor = Executor::new(0);
    let queue = executor.add_wait_queue();
    executor.spawn(0);
    executor.spawn(0);
    executor.yield_now();
    executor.wait(queue);
    // Task 2 runs, the main task is ready, task 1 waits.
    assert_eq!(executor.current(), Some(2));
    assert_eq!(ready(&executor), vec![0]);
    assert!(executor.notify_one(queue, true));
    assert_eq!(executor.current(), Some(0));
    assert_eq!(ready(&executor), vec![1, 2]);
    assert_eq!(state(&executor, 2), TaskState::Ready);
    assert_eq!(links(&executor, 2), (1, 0, 0));
}

#[test]
fn one_task_runs_while_another_can_take_over() {
    let mut executor = Executor::new(0);
    let queue = executor.add_wait_queue();
    for _ in 0..6 {
        executor.spawn(0);
    }
    let mut running = |executor: &Executor| {
        let mut count = 0;
        for task in 0..executor.task_count() {
            if executor.task(task).unwrap().state == TaskState::Running {
                assert_eq!(executor.current(), Some(task));
                count += 1;
            }
        }
        count
    };
    assert_eq!(running(&executor), 1);
    executor.yield_now();
    assert_eq!(running(&executor), 1);
    executor.sleep(10);
    assert_eq!(running(&executor), 1);
    executor.wait(queue);
    assert_eq!(running(&executor), 1);
    executor.wait_timeout_until(queue, 5, false);
    assert_eq!(running(&executor), 1);
    executor.exit();
    assert_eq!(running(&executor), 1);
    executor.tick(20);
    assert_eq!(running(&executor), 1);
    executor.notify_all(queue, true);
    assert_eq!(running(&executor), 1);
    assert!(executor.ready_len() > 0);
    // The ready queue runs empty, and the last task that could run blocks.
    while executor.ready_len() > 0 {
        executor.exit();
        assert_eq!(running(&executor), 1);
    }
    executor.wait(queue);
    assert_eq!(running(&executor), 0);
    assert_eq!(executor.current(), None);
}
