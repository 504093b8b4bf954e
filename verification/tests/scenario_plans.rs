use task_irq::irq::{check_call, make_call, IrqCall, IrqMask};
use task_irq::scenario::{
    all_arrived, all_left, background_step, keep_polling, producer_step, sleep_main_step,
    sleeper_step, storm_step, worker_step, yielder_step, ProducerAction, ProducerPhase,
    SleepMainAction, SleepMainPhase, StormStep, WorkerAction, WorkerPhase, BACKGROUND_MILLIS,
    BACKGROUND_ROUNDS, MAIN_SLEEP_MILLIS, NUM_TASKS, NUM_TIMES, POLL_MILLIS, SLEEPER_MILLIS,
    SLEEPER_ROUNDS, TIMED_WAIT_MILLIS,
};

#[test]
fn scenario_sizes() {
    assert_eq!(NUM_TASKS, 16);
    assert_eq!(NUM_TIMES, 100);
    assert_eq!(MAIN_SLEEP_MILLIS, 1_000);
    assert_eq!((BACKGROUND_ROUNDS, BACKGROUND_MILLIS), (10, 100));
    assert_eq!((SLEEPER_ROUNDS, SLEEPER_MILLIS), (3, 1_000));
    assert_eq!(POLL_MILLIS, 10);
    assert_eq!(TIMED_WAIT_MILLIS, 100);
}

#[test]
fn storm_step_makes_rounds_until_all_are_done() {
    assert_eq!(storm_step(0, 3, 25), StormStep::Round { millis: 25 });
    assert_eq!(storm_step(2, 3, 25), StormStep::Round { millis: 25 });
    assert_eq!(storm_step(3, 3, 25), StormStep::Finish);
    assert_eq!(storm_step(4, 3, 25), StormStep::Finish);
    assert_eq!(storm_step(0, 0, 25), StormStep::Finish);
}

#[test]
fn yielder_yields_a_hundred_times() {
    assert_eq!(yielder_step(0), StormStep::Round { millis: 0 });
    assert_eq!(yielder_step(99), StormStep::Round { millis: 0 });
    assert_eq!(yielder_step(100), StormStep::Finish);
    let mut done = 0;
    while yielder_step(done) != StormStep::Finish {
        done += 1;
    }
    assert_eq!(done, 100);
}

#[test]
fn background_task_sleeps_ten_times_a_tenth_of_a_second() {
    assert_eq!(background_step(0), StormStep::Round { millis: 100 });
    assert_eq!(background_step(9), StormStep::Round { millis: 100 });
    assert_eq!(background_step(10), StormStep::Finish);
}

#[test]
fn sleeper_sleeps_three_times_a_second() {
    assert_eq!(sleeper_step(0), StormStep::Round { millis: 1_000 });
    assert_eq!(sleeper_step(2), StormStep::Round { millis: 1_000 });
    assert_eq!(sleeper_step(3), StormStep::Finish);
}

#[test]
fn main_polls_while_workers_are_at_it() {
    assert!(keep_polling(0));
    assert!(keep_polling(15));
    assert!(!keep_polling(16));
    assert!(!keep_polling(17));
}

#[test]
fn sleep_main_sleeps_spawns_and_polls() {
    assert_eq!(
        sleep_main_step(SleepMainPhase::Start, 0),
        (SleepMainPhase::Slept, SleepMainAction::Round { millis: 1_000 })
    );
    assert_eq!(
        sleep_main_step(SleepMainPhase::Slept, 0),
        (SleepMainPhase::Polling, SleepMainAction::SpawnAll)
    );
    assert_eq!(
        sleep_main_step(SleepMainPhase::Polling, 0),
        (SleepMainPhase::Polling, SleepMainAction::Poll { millis: 10 })
    );
    assert_eq!(
        sleep_main_step(SleepMainPhase::Polling, 15),
        (SleepMainPhase::Polling, SleepMainAction::Poll { millis: 10 })
    );
    assert_eq!(
        sleep_main_step(SleepMainPhase::Polling, 16),
        (SleepMainPhase::Polling, SleepMainAction::Finish)
    );
}

#[test]
fn worker_runs_its_five_steps_in_order() {
    let mut phase = WorkerPhase::Start;
    let mut actions = Vec::new();
    let mut counter: i64 = 0;
    for _ in 0..5 {
        let (next, action) = worker_step(phase);
        match action {
            WorkerAction::CountUpAndNotify { .. } => counter += 1,
            WorkerAction::CountDownAndNotify { .. } => counter -= 1,
            _ => {}
        }
        actions.push(action);
        phase = next;
    }
    assert_eq!(
        actions,
        vec![
            WorkerAction::TimedWait { millis: 100 },
            WorkerAction::CountUpAndNotify { resched: true },
            WorkerAction::WaitForRelease,
            WorkerAction::CountDownAndNotify { resched: true },
            WorkerAction::Exit,
        ]
    );
    assert_eq!(phase, WorkerPhase::Left);
    assert_eq!(counter, 0);
    assert_eq!(worker_step(WorkerPhase::Left), (WorkerPhase::Left, WorkerAction::Exit));
    assert_eq!(worker_step(WorkerPhase::TimedOut).0, WorkerPhase::Arrived);
    assert_eq!(worker_step(WorkerPhase::Arrived).0, WorkerPhase::Released);
}

#[test]
fn rendezvous_conditions() {
    assert!(all_arrived(16));
    assert!(!all_arrived(15));
    assert!(!all_arrived(17));
    assert!(!all_arrived(0));
    assert!(all_left(0));
    assert!(!all_left(1));
    assert!(!all_left(16));
}

#[test]
fn producer_waits_for_all_then_broadcasts_then_waits_for_none() {
    assert_eq!(
        producer_step(ProducerPhase::Start, 0),
        (ProducerPhase::AwaitAll, ProducerAction::SpawnWorkers)
    );
    assert_eq!(
        producer_step(ProducerPhase::AwaitAll, 15),
        (ProducerPhase::AwaitAll, ProducerAction::WaitOnRendezvous { satisfied: false })
    );
    assert_eq!(
        producer_step(ProducerPhase::AwaitAll, 16),
        (ProducerPhase::Broadcast, ProducerAction::WaitOnRendezvous { satisfied: true })
    );
    assert_eq!(
        producer_step(ProducerPhase::Broadcast, 16),
        (ProducerPhase::AwaitNone, ProducerAction::Broadcast { resched: true })
    );
    assert_eq!(
        producer_step(ProducerPhase::AwaitNone, 1),
        (ProducerPhase::AwaitNone, ProducerAction::WaitOnRendezvous { satisfied: false })
    );
    assert_eq!(
        producer_step(ProducerPhase::AwaitNone, 0),
        (ProducerPhase::Done, ProducerAction::WaitOnRendezvous { satisfied: true })
    );
    assert_eq!(
        producer_step(ProducerPhase::Done, 0),
        (ProducerPhase::Done, ProducerAction::Finish)
    );
}

#[test]
fn check_makes_four_calls_in_order() {
    assert_eq!(check_call(0), Some(IrqCall::ExpectEnabled));
    assert_eq!(check_call(1), Some(IrqCall::Disable));
    assert_eq!(check_call(2), Some(IrqCall::ExpectDisabled));
    assert_eq!(check_call(3), Some(IrqCall::Enable));
    assert_eq!(check_call(4), None);
    assert_eq!(check_call(usize::MAX), None);
}

#[test]
fn calls_of_the_check_on_a_mask() {
    let mut mask = IrqMask::observed(true);
    let mut flags = Vec::new();
    let mut index = 0;
    while let Some(call) = check_call(index) {
        make_call(&mut mask, call);
        flags.push(mask.irqs_enabled());
        index += 1;
    }
    assert_eq!(flags, vec![true, false, false, true]);
    assert_eq!(index, 4);
}

/// The shared counter as the phases of the workers give it.
fn counted(phases: &[WorkerPhase]) -> usize {
    phases
        .iter()
        .filter(|phase| **phase == WorkerPhase::Arrived || **phase == WorkerPhase::Released)
        .count()
}

#[test]
fn counter_moves_by_one_and_stays_within_its_bounds() {
    let mut phases = vec![WorkerPhase::Start; NUM_TASKS];
    let mut counter: i64 = 0;
    let mut ups = vec![0; NUM_TASKS];
    let mut downs = vec![0; NUM_TASKS];
    // The workers step out of turn, each as often as the others, until all
    // have left.
    let mut steps = 0;
    while phases.iter().any(|phase| *phase != WorkerPhase::Left) {
        let worker = (steps * 5 + steps / NUM_TASKS) % NUM_TASKS;
        let (next, action) = worker_step(phases[worker]);
        let before = counter;
        match action {
            WorkerAction::CountUpAndNotify { .. } => {
                counter += 1;
                ups[worker] += 1;
            }
            WorkerAction::CountDownAndNotify { .. } => {
                counter -= 1;
                downs[worker] += 1;
            }
            _ => {}
        }
        phases[worker] = next;
        assert!((counter - before).abs() <= 1);
        assert!(0 <= counter && counter <= NUM_TASKS as i64);
        assert_eq!(counter, counted(&phases) as i64);
        assert_eq!(all_arrived(counter as usize), counted(&phases) == NUM_TASKS);
        assert_eq!(all_left(counter as usize), counted(&phases) == 0);
        steps += 1;
        assert!(steps < 100_000);
    }
    assert_eq!(counter, 0);
    assert_eq!(ups, vec![1; NUM_TASKS]);
    assert_eq!(downs, vec![1; NUM_TASKS]);
}

#[test]
fn background_task_sleeps_a_third_of_a_worker_in_all() {
    let background = BACKGROUND_ROUNDS as u64 * BACKGROUND_MILLIS;
    let worker = SLEEPER_ROUNDS as u64 * SLEEPER_MILLIS;
    assert_eq!(background, 1_000);
    assert_eq!(worker, 3_000);
    assert!(BACKGROUND_ROUNDS as u64 * (BACKGROUND_MILLIS + 200) <= worker);
}
