use task_irq::executor::Executor;
use task_irq::harness::{
    notify_all_round, notify_one_round, sleep_round, tick_round, wait_deadline_round, wait_round,
    wait_timeout_round, wait_until_round, yield_round,
};
use task_irq::queue::TaskQueue;
use task_irq::scenario::{
    background_step, keep_polling, producer_step, sleep_main_step, sleeper_step, worker_step,
    yielder_step, ProducerAction, ProducerPhase, SleepMainAction, SleepMainPhase, StormStep,
    WorkerAction, WorkerPhase, MAIN_SLEEP_MILLIS, NUM_TASKS, NUM_TIMES, TIMED_WAIT_MILLIS,
};
use task_irq::state::WaitOutcome;
use task_irq::task::{TaskState, WakeReason};

/// The period of the timer tick, in milliseconds.
const TICK: u64 = 10;
const MAIN: usize = 0;

fn items(queue: &TaskQueue) -> Vec<usize> {
    let mut out = Vec::new();
    let mut i = 0;
    while let Some(task) = queue.get(i) {
        out.push(task);
        i += 1;
    }
    out
}

fn sleepers(executor: &Executor) -> Vec<(u64, usize)> {
    let mut out = Vec::new();
    let mut i = 0;
    while let Some(entry) = executor.sleep_queue().get(i) {
        out.push((entry.deadline, entry.task));
        i += 1;
    }
    out
}

/// The checks that hold between any two operations: interrupts are enabled for
/// the code that runs, every suspended task gets them back enabled, and every
/// task is linked exactly where its state says.
fn check(executor: &Executor) {
    assert!(executor.irqs_enabled());
    let ready = items(executor.ready_queue());
    let timers = sleepers(executor);
    for pair in timers.windows(2) {
        assert!(pair[0].0 <= pair[1].0);
    }
    for id in 0..executor.task_count() {
        let task = executor.task(id).unwrap();
        let in_ready = ready.iter().filter(|t| **t == id).count();
        let in_sleep = timers.iter().filter(|(_, t)| *t == id).count();
        let mut in_wait = 0;
        for queue in 0..executor.queue_count() {
            let list = items(executor.wait_queue(queue).unwrap());
            in_wait += list.iter().filter(|t| **t == id).count();
        }
        let expected = match task.state {
            TaskState::Ready => (1, 0, 0),
            TaskState::Running => {
                assert_eq!(executor.current(), Some(id));
                (0, 0, 0)
            }
            TaskState::Sleeping { until } => {
                assert!(timers.contains(&(until, id)));
                (0, 1, 0)
            }
            TaskState::Waiting { queue, deadline } => {
                assert!(items(executor.wait_queue(queue).unwrap()).contains(&id));
                if let Some(d) = deadline {
                    assert!(timers.contains(&(d, id)));
                }
                (0, if deadline.is_some() { 1 } else { 0 }, 1)
            }
            TaskState::Terminated => (0, 0, 0),
        };
        assert_eq!((in_ready, in_sleep, in_wait), expected, "task {}", id);
        if task.state != TaskState::Running && task.state != TaskState::Terminated {
            assert!(task.irq_saved, "task {}", id);
        }
    }
}

/// What the timer driver and the idle loop do while no task can run: the
/// clock moves on by one period, the tick is delivered, and whatever became
/// ready is taken up.
fn idle_until_something_runs(executor: &mut Executor) {
    assert!(executor.sleep_queue().len() > 0, "nothing will ever wake: deadlock");
    while executor.current().is_none() {
        let now = executor.now() + TICK;
        tick_round(executor, now);
        executor.yield_now();
        check(executor);
    }
}

/// One round of a storm: the checks, and between them a sleep of `millis`. A
/// round of no time is a yield.
fn round(executor: &mut Executor, millis: u64) {
    if millis == 0 {
        yield_round(executor);
    } else {
        sleep_round(executor, millis);
    }
}

#[test]
fn yield_storm() {
    let mut executor = Executor::new(0);
    let mut done = vec![0usize; NUM_TASKS + 1];
    for _ in 0..NUM_TASKS {
        executor.spawn(0);
    }
    let mut finished = 0;
    let mut order = Vec::new();
    let mut steps = 0;
    loop {
        steps += 1;
        assert!(steps <= 2 * (NUM_TASKS + 1) * (NUM_TIMES + 2), "the storm does not end");
        check(&executor);
        let current = executor.current().expect("the main task never blocks");
        order.push(current);
        if current == MAIN {
            if !keep_polling(finished) {
                break;
            }
            yield_round(&mut executor);
            continue;
        }
        match yielder_step(done[current]) {
            StormStep::Round { millis } => {
                done[current] += 1;
                round(&mut executor, millis);
            }
            StormStep::Finish => {
                finished += 1;
                executor.exit();
            }
        }
    }
    assert_eq!(finished, NUM_TASKS);
    assert_eq!(executor.current(), Some(MAIN));
    assert_eq!(executor.ready_len(), 0);
    for id in 1..=NUM_TASKS {
        assert_eq!(executor.task(id).unwrap().state, TaskState::Terminated);
        assert_eq!(done[id], NUM_TIMES);
    }
    // Round robin: the tasks run in the order in which they became ready.
    let turn: Vec<usize> = (0..=NUM_TASKS).collect();
    for (i, task) in order.iter().enumerate().take(3 * (NUM_TASKS + 1)) {
        assert_eq!(*task, turn[i % (NUM_TASKS + 1)]);
    }
    // Each task yields NUM_TIMES times and then ends; the main task polls once
    // a round.
    assert_eq!(order.len(), (NUM_TASKS + 1) * (NUM_TIMES + 1) + 1);
}

#[derive(Clone, Copy)]
enum Sleeper {
    Main { phase: SleepMainPhase },
    Background { done: usize },
    Worker { done: usize },
    Ended,
}

#[test]
fn sleep_storm() {
    let mut executor = Executor::new(0);
    let mut programs = vec![Sleeper::Main { phase: SleepMainPhase::Start }];
    // The deadline that each task sleeps towards, if it sleeps.
    let mut pending: Vec<Option<u64>> = vec![None];
    let mut finished = 0;
    let mut background_done = false;
    let mut wakes = 0;
    let mut steps = 0;
    loop {
        steps += 1;
        assert!(steps <= 100_000, "the storm does not end");
        check(&executor);
        let current = match executor.current() {
            Some(task) => task,
            None => {
                idle_until_something_runs(&mut executor);
                continue;
            }
        };
        // A task that resumes from a sleep does so at its deadline, within
        // one tick period.
        if let Some(deadline) = pending[current].take() {
            let now = executor.now();
            assert!(deadline <= now && now - deadline < TICK, "task {} woke at {}", current, now);
            assert_eq!(executor.task(current).unwrap().last_wake, Some(WakeReason::TimedOut));
            wakes += 1;
        }
        let step = match programs[current] {
            Sleeper::Main { phase } => {
                let (next, action) = sleep_main_step(phase, finished);
                programs[current] = Sleeper::Main { phase: next };
                match action {
                    SleepMainAction::Round { millis } => {
                        pending[current] = Some(executor.now() + millis);
                        round(&mut executor, millis);
                    }
                    SleepMainAction::SpawnAll => {
                        assert_eq!(executor.now(), MAIN_SLEEP_MILLIS);
                        executor.spawn(0);
                        programs.push(Sleeper::Background { done: 0 });
                        pending.push(None);
                        for _ in 0..NUM_TASKS {
                            executor.spawn(0);
                            programs.push(Sleeper::Worker { done: 0 });
                            pending.push(None);
                        }
                        assert_eq!(programs.len(), executor.task_count());
                    }
                    SleepMainAction::Poll { millis } => {
                        pending[current] = Some(executor.now() + millis);
                        executor.sleep(millis);
                    }
                    SleepMainAction::Finish => break,
                }
                continue;
            }
            Sleeper::Background { done } => {
                programs[current] = Sleeper::Background { done: done + 1 };
                background_step(done)
            }
            Sleeper::Worker { done } => {
                programs[current] = Sleeper::Worker { done: done + 1 };
                sleeper_step(done)
            }
            Sleeper::Ended => panic!("an ended task runs"),
        };
        match step {
            StormStep::Round { millis } => {
                pending[current] = Some(executor.now() + millis);
                round(&mut executor, millis);
            }
            StormStep::Finish => {
                match programs[current] {
                    Sleeper::Background { .. } => background_done = true,
                    _ => finished += 1,
                }
                programs[current] = Sleeper::Ended;
                executor.exit();
            }
        }
    }
    assert_eq!(finished, NUM_TASKS);
    assert!(background_done);
    // One second for the main task, then three for the workers.
    assert_eq!(executor.now(), 4_000);
    // The main task slept once for long and polled every 10 ms for three
    // seconds; the background task slept ten times, each worker three times.
    assert_eq!(wakes, 1 + 300 + 10 + 3 * NUM_TASKS);
    assert_eq!(executor.sleep_queue().len(), 0);
    for id in 1..executor.task_count() {
        assert_eq!(executor.task(id).unwrap().state, TaskState::Terminated);
    }
}

/// How a run of the rendezvous ended.
struct Rendezvous {
    executor: Executor,
    rendezvous: usize,
    release: usize,
    timer_only: usize,
    counter: usize,
    peak: usize,
    /// The counter after each change of it, in order.
    counts: Vec<usize>,
    main: ProducerPhase,
    workers: Vec<WorkerPhase>,
    /// Whether the run ended with every task blocked and no timer armed.
    stuck: bool,
}

/// Runs the programs of the rendezvous on the executor. Every action is the
/// program's. One thing is the run's to choose: whether the notification on
/// arrival is made with the yield that the program asks for.
fn run_rendezvous(yield_on_arrival: bool) -> Rendezvous {
    let mut executor = Executor::new(0);
    let rendezvous = executor.add_wait_queue();
    let release = executor.add_wait_queue();
    let timer_only = executor.add_wait_queue();
    let mut workers = vec![WorkerPhase::Left; NUM_TASKS + 1];
    // The deadline of the timed wait that a worker is in, if it is in one.
    let mut timed: Vec<Option<u64>> = vec![None; NUM_TASKS + 1];
    let mut main = ProducerPhase::Start;
    let mut counter: usize = 0;
    let mut peak: usize = 0;
    let mut counts = Vec::new();
    let mut stuck = false;
    let mut steps = 0;
    let started_at = executor.now();
    loop {
        steps += 1;
        assert!(steps <= 10_000, "the run does not end");
        check(&executor);
        let current = match executor.current() {
            Some(task) => task,
            None => {
                if executor.sleep_queue().len() == 0 {
                    stuck = true;
                    break;
                }
                idle_until_something_runs(&mut executor);
                continue;
            }
        };
        if current == MAIN {
            let (next, action) = producer_step(main, counter);
            match action {
                ProducerAction::SpawnWorkers => {
                    for _ in 0..NUM_TASKS {
                        let id = executor.spawn(0);
                        workers[id] = WorkerPhase::Start;
                    }
                }
                ProducerAction::WaitOnRendezvous { satisfied } => {
                    let outcome = wait_until_round(&mut executor, rendezvous, satisfied);
                    assert_eq!(outcome == WaitOutcome::Satisfied, satisfied);
                    if main == ProducerPhase::AwaitAll && satisfied {
                        assert_eq!(counter, NUM_TASKS);
                    }
                }
                ProducerAction::Broadcast { resched } => {
                    assert!(resched);
                    notify_all_round(&mut executor, release, resched);
                }
                ProducerAction::Finish => break,
            }
            main = next;
            continue;
        }
        if let Some(deadline) = timed[current] {
            // Nobody notifies this queue: the wait ends by its timeout.
            let outcome = wait_deadline_round(&mut executor, timer_only, deadline, false);
            assert_eq!(outcome, WaitOutcome::TimedOut);
            assert_eq!(executor.task(current).unwrap().last_wake, Some(WakeReason::TimedOut));
            assert!(executor.now() >= deadline && executor.now() - deadline < TICK);
            timed[current] = None;
            continue;
        }
        let (next, action) = worker_step(workers[current]);
        workers[current] = next;
        match action {
            WorkerAction::TimedWait { millis } => {
                let (outcome, deadline) =
                    wait_timeout_round(&mut executor, timer_only, millis, false);
                assert_eq!(outcome, WaitOutcome::Blocked);
                assert_eq!(deadline, started_at + TIMED_WAIT_MILLIS);
                timed[current] = Some(deadline);
            }
            WorkerAction::CountUpAndNotify { resched } => {
                assert!(resched);
                counter += 1;
                peak = peak.max(counter);
                counts.push(counter);
                notify_one_round(&mut executor, rendezvous, yield_on_arrival);
            }
            WorkerAction::WaitForRelease => {
                wait_round(&mut executor, release);
            }
            WorkerAction::CountDownAndNotify { resched } => {
                assert!(resched);
                assert_eq!(executor.task(current).unwrap().last_wake, Some(WakeReason::Notified));
                counter -= 1;
                counts.push(counter);
                notify_one_round(&mut executor, rendezvous, resched);
            }
            WorkerAction::Exit => {
                executor.exit();
            }
        }
    }
    Rendezvous {
        executor,
        rendezvous,
        release,
        timer_only,
        counter,
        peak,
        counts,
        main,
        workers,
        stuck,
    }
}

#[test]
fn producer_consumer_wait_queue() {
    // The program asks for a yield with the notification on arrival. On this
    // executor a notification that yields hands the processor over before the
    // worker waits for the release, and the broadcast misses the worker:
    // `rendezvous_with_a_yield_on_arrival_loses_every_worker` runs that. Here
    // the worker gives up the processor by the wait for the release, which is
    // its next step, and the notification on arrival is made without the
    // yield. Every other action is made as the programs say.
    let run = run_rendezvous(false);
    assert!(!run.stuck);
    assert_eq!(run.counter, 0);
    assert_eq!(run.peak, NUM_TASKS);
    // The counter rises by one for every worker, then falls by one for every
    // worker.
    let rise: Vec<usize> = (1..=NUM_TASKS).collect();
    let fall: Vec<usize> = (0..NUM_TASKS).rev().collect();
    assert_eq!(run.counts[..NUM_TASKS], rise[..]);
    assert_eq!(run.counts[NUM_TASKS..], fall[..]);
    assert_eq!(run.main, ProducerPhase::Done);
    assert_eq!(run.executor.current(), Some(MAIN));
    for queue in [run.rendezvous, run.release, run.timer_only] {
        assert_eq!(items(run.executor.wait_queue(queue).unwrap()), Vec::<usize>::new());
    }
    assert_eq!(run.executor.sleep_queue().len(), 0);
    for id in 1..=NUM_TASKS {
        // Every worker has counted down; the last ones have yet to end.
        assert_eq!(run.workers[id], WorkerPhase::Left, "task {}", id);
    }
}

#[test]
fn rendezvous_with_a_yield_on_arrival_loses_every_worker() {
    // Every action as the programs say, the yield on arrival too. Each worker
    // hands the processor over when it has counted up. The main task sees
    // the last arrival and broadcasts while no worker waits for the release
    // yet; the workers then block on the release queue for good.
    let run = run_rendezvous(true);
    assert!(run.stuck);
    assert_eq!(run.counter, NUM_TASKS);
    assert_eq!(run.peak, NUM_TASKS);
    let rise: Vec<usize> = (1..=NUM_TASKS).collect();
    assert_eq!(run.counts, rise);
    assert_eq!(run.main, ProducerPhase::AwaitNone);
    assert_eq!(run.executor.current(), None);
    let workers: Vec<usize> = (1..=NUM_TASKS).collect();
    assert_eq!(items(run.executor.wait_queue(run.release).unwrap()), workers);
    assert_eq!(items(run.executor.wait_queue(run.rendezvous).unwrap()), vec![MAIN]);
    assert_eq!(items(run.executor.wait_queue(run.timer_only).unwrap()), Vec::<usize>::new());
    for id in 1..=NUM_TASKS {
        assert_eq!(run.workers[id], WorkerPhase::Released, "task {}", id);
        assert_eq!(
            run.executor.task(id).unwrap().state,
            TaskState::Waiting { queue: run.release, deadline: None }
        );
    }
}

#[test]
fn a_worker_that_yields_on_arrival_misses_the_broadcast() {
    // One worker, and a main task that waits for its arrival. The worker
    // counts up and notifies with a yield: the main task runs before the
    // worker waits for the release, and its broadcast finds nobody.
    let mut executor = Executor::new(0);
    let rendezvous = executor.add_wait_queue();
    let release = executor.add_wait_queue();
    let worker = executor.spawn(0);
    let mut counter = 0;
    assert_eq!(wait_until_round(&mut executor, rendezvous, counter == 1), WaitOutcome::Blocked);
    assert_eq!(executor.current(), Some(worker));
    counter += 1;
    assert!(notify_one_round(&mut executor, rendezvous, true));
    assert_eq!(executor.current(), Some(MAIN));
    assert_eq!(wait_until_round(&mut executor, rendezvous, counter == 1), WaitOutcome::Satisfied);
    assert_eq!(items(executor.wait_queue(release).unwrap()), Vec::<usize>::new());
    notify_all_round(&mut executor, release, true);
    assert_eq!(executor.current(), Some(worker));
    wait_round(&mut executor, release);
    assert_eq!(items(executor.wait_queue(release).unwrap()), vec![worker]);
    assert_eq!(executor.current(), Some(MAIN));
    // Without the yield the worker waits for the release when the main task
    // looks.
    let mut executor = Executor::new(0);
    let rendezvous = executor.add_wait_queue();
    let release = executor.add_wait_queue();
    let worker = executor.spawn(0);
    assert_eq!(wait_until_round(&mut executor, rendezvous, false), WaitOutcome::Blocked);
    assert!(notify_one_round(&mut executor, rendezvous, false));
    assert_eq!(executor.current(), Some(worker));
    wait_round(&mut executor, release);
    assert_eq!(executor.current(), Some(MAIN));
    assert_eq!(items(executor.wait_queue(release).unwrap()), vec![worker]);
    notify_all_round(&mut executor, release, true);
    assert_eq!(executor.task(worker).unwrap().last_wake, Some(WakeReason::Notified));
    check(&executor);
}

#[test]
fn a_wait_that_starts_after_the_broadcast_is_not_woken_by_it() {
    let mut executor = Executor::new(0);
    let release = executor.add_wait_queue();
    executor.spawn(0);
    // The broadcast finds no waiter and remembers nothing.
    notify_all_round(&mut executor, release, true);
    assert_eq!(executor.current(), Some(1));
    wait_round(&mut executor, release);
    assert_eq!(executor.current(), Some(MAIN));
    assert_eq!(items(executor.wait_queue(release).unwrap()), vec![1]);
    executor.yield_now();
    executor.tick(1_000_000);
    executor.yield_now();
    assert_eq!(executor.current(), Some(MAIN));
    assert_eq!(executor.task(1).unwrap().state, TaskState::Waiting { queue: release, deadline: None });
    // The next notification reaches it.
    assert!(notify_one_round(&mut executor, release, false));
    assert_eq!(executor.task(1).unwrap().state, TaskState::Ready);
    check(&executor);
}
