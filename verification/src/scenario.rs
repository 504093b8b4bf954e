//! The programs of the three acceptance scenarios: a storm of yields, a storm
//! of sleeps, and a rendezvous on wait queues. Each function says what a task
//! of the scenario does next, from where it stands and what it sees. Whoever
//! runs the scenario performs the action and asks again.

use vstd::prelude::*;

verus! {

/// The number of worker tasks in every scenario.
pub const NUM_TASKS: usize = 16;

/// The number of times that a worker of the yield storm yields.
pub const NUM_TIMES: usize = 100;

/// How long the main task of the sleep storm sleeps before it spawns anyone.
pub const MAIN_SLEEP_MILLIS: u64 = 1000;

/// The sleeps of the background task of the sleep storm.
pub const BACKGROUND_ROUNDS: usize = 10;

/// The length of a sleep of the background task.
pub const BACKGROUND_MILLIS: u64 = 100;

/// The sleeps of a worker of the sleep storm.
pub const SLEEPER_ROUNDS: usize = 3;

/// The length of a sleep of a worker.
pub const SLEEPER_MILLIS: u64 = 1000;

/// How long the main task of the sleep storm sleeps between two looks at the
/// count of finished workers.
pub const POLL_MILLIS: u64 = 10;

/// The timeout of the wait that opens a worker's part in the rendezvous.
pub const TIMED_WAIT_MILLIS: u64 = 100;

/// What a task of a storm does next.
#[derive(Clone, Copy, Debug, PartialEq, Eq)]
pub enum StormStep {
    /// One more round: the checks, and between them a sleep of `millis`. A
    /// round of no time is a yield.
    Round { millis: u64 },
    /// The rounds are done: the task reports and ends.
    Finish,
}

/// A task that makes `rounds` rounds of `millis` each and has made `done` of
/// them.
pub fn storm_step(done: usize, rounds: usize, millis: u64) -> (step: StormStep)
    ensures
        step == (if done < rounds {
            StormStep::Round { millis }
        } else {
            StormStep::Finish
        }),
{
    if done < rounds {
        StormStep::Round { millis }
    } else {
        StormStep::Finish
    }
}

/// A worker of the yield storm: `NUM_TIMES` yields, then the end.
pub fn yielder_step(done: usize) -> (step: StormStep)
    ensures
        step == (if done < NUM_TIMES {
            StormStep::Round { millis: 0 }
        } else {
            StormStep::Finish
        }),
{
    storm_step(done, NUM_TIMES, 0)
}

/// The background task of the sleep storm: `BACKGROUND_ROUNDS` short sleeps.
pub fn background_step(done: usize) -> (step: StormStep)
    ensures
        step == (if done < BACKGROUND_ROUNDS {
            StormStep::Round { millis: BACKGROUND_MILLIS }
        } else {
            StormStep::Finish
        }),
{
    storm_step(done, BACKGROUND_ROUNDS, BACKGROUND_MILLIS)
}

/// A worker of the sleep storm: `SLEEPER_ROUNDS` long sleeps, then the end.
pub fn sleeper_step(done: usize) -> (step: StormStep)
    ensures
        step == (if done < SLEEPER_ROUNDS {
            StormStep::Round { millis: SLEEPER_MILLIS }
        } else {
            StormStep::Finish
        }),
{
    storm_step(done, SLEEPER_ROUNDS, SLEEPER_MILLIS)
}

/// Whether the main task of a storm looks again: it does while fewer than
/// all the workers have finished.
pub fn keep_polling(finished: usize) -> (again: bool)
    ensures
        again == (finished < NUM_TASKS),
{
    finished < NUM_TASKS
}

/// Where the main task of the sleep storm stands.
#[derive(Clone, Copy, Debug, PartialEq, Eq)]
pub enum SleepMainPhase {
    Start,
    Slept,
    Polling,
}

/// What the main task of the sleep storm does next.
#[derive(Clone, Copy, Debug, PartialEq, Eq)]
pub enum SleepMainAction {
    /// A round: the checks, and between them a sleep of `millis`.
    Round { millis: u64 },
    /// Spawns the background task and then the workers.
    SpawnAll,
    /// A sleep of `millis` with no check around it, before the next look.
    Poll { millis: u64 },
    Finish,
}

/// The program of the main task of the sleep storm: one long sleep, then
/// the spawns, then a short sleep for every look that finds workers still at
/// it.
pub open spec fn sleep_main_plan(phase: SleepMainPhase, finished: usize) -> (
    SleepMainPhase,
    SleepMainAction,
) {
    match phase {
        SleepMainPhase::Start => (
            SleepMainPhase::Slept,
            SleepMainAction::Round { millis: MAIN_SLEEP_MILLIS },
        ),
        SleepMainPhase::Slept => (SleepMainPhase::Polling, SleepMainAction::SpawnAll),
        SleepMainPhase::Polling => if finished < NUM_TASKS {
            (SleepMainPhase::Polling, SleepMainAction::Poll { millis: POLL_MILLIS })
        } else {
            (SleepMainPhase::Polling, SleepMainAction::Finish)
        },
    }
}

/// One step of the main task of the sleep storm, with `finished` workers
/// done.
pub fn sleep_main_step(phase: SleepMainPhase, finished: usize) -> (next: (
    SleepMainPhase,
    SleepMainAction,
))
    ensures
        next == sleep_main_plan(phase, finished),
{
    match phase {
        SleepMainPhase::Start => (
            SleepMainPhase::Slept,
            SleepMainAction::Round { millis: MAIN_SLEEP_MILLIS },
        ),
        SleepMainPhase::Slept => (SleepMainPhase::Polling, SleepMainAction::SpawnAll),
        SleepMainPhase::Polling => {
            if keep_polling(finished) {
                (SleepMainPhase::Polling, SleepMainAction::Poll { millis: POLL_MILLIS })
            } else {
                (SleepMainPhase::Polling, SleepMainAction::Finish)
            }
        },
    }
}

/// Where a worker of the rendezvous stands.
#[derive(Clone, Copy, Debug, PartialEq, Eq)]
pub enum WorkerPhase {
    Start,
    TimedOut,
    Arrived,
    Released,
    Left,
}

/// What a worker of the rendezvous does next.
#[derive(Clone, Copy, Debug, PartialEq, Eq)]
pub enum WorkerAction {
    /// Waits on a queue that nobody notifies, for a condition that never
    /// holds: the wait ends by its timeout.
    TimedWait { millis: u64 },
    /// Adds one to the shared counter and notifies one waiter of the
    /// rendezvous queue.
    CountUpAndNotify { resched: bool },
    /// Blocks on the release queue until the broadcast.
    WaitForRelease,
    /// Takes one off the shared counter and notifies one waiter of the
    /// rendezvous queue.
    CountDownAndNotify { resched: bool },
    Exit,
}

/// The program of a worker of the rendezvous: the timed wait, the count up,
/// the wait for the release, the count down, the end. Both notifications of
/// the rendezvous queue ask for a yield.
pub open spec fn worker_plan(phase: WorkerPhase) -> (WorkerPhase, WorkerAction) {
    match phase {
        WorkerPhase::Start => (
            WorkerPhase::TimedOut,
            WorkerAction::TimedWait { millis: TIMED_WAIT_MILLIS },
        ),
        WorkerPhase::TimedOut => (
            WorkerPhase::Arrived,
            WorkerAction::CountUpAndNotify { resched: true },
        ),
        WorkerPhase::Arrived => (WorkerPhase::Released, WorkerAction::WaitForRelease),
        WorkerPhase::Released => (
            WorkerPhase::Left,
            WorkerAction::CountDownAndNotify { resched: true },
        ),
        WorkerPhase::Left => (WorkerPhase::Left, WorkerAction::Exit),
    }
}

/// One step of a worker of the rendezvous.
pub fn worker_step(phase: WorkerPhase) -> (next: (WorkerPhase, WorkerAction))
    ensures
        next == worker_plan(phase),
{
    match phase {
        WorkerPhase::Start => (
            WorkerPhase::TimedOut,
            WorkerAction::TimedWait { millis: TIMED_WAIT_MILLIS },
        ),
        WorkerPhase::TimedOut => (
            WorkerPhase::Arrived,
            WorkerAction::CountUpAndNotify { resched: true },
        ),
        WorkerPhase::Arrived => (WorkerPhase::Released, WorkerAction::WaitForRelease),
        WorkerPhase::Released => (
            WorkerPhase::Left,
            WorkerAction::CountDownAndNotify { resched: true },
        ),
        WorkerPhase::Left => (WorkerPhase::Left, WorkerAction::Exit),
    }
}

/// What `action` does to the shared counter.
pub open spec fn counter_change(action: WorkerAction) -> int {
    match action {
        WorkerAction::CountUpAndNotify { .. } => 1,
        WorkerAction::CountDownAndNotify { .. } => -1,
        _ => 0,
    }
}

/// The condition that the main task of the rendezvous waits for first: every
/// worker has arrived.
pub fn all_arrived(counter: usize) -> (yes: bool)
    ensures
        yes == (counter == NUM_TASKS),
{
    counter == NUM_TASKS
}

/// The condition that the main task of the rendezvous waits for last: every
/// worker has left.
pub fn all_left(counter: usize) -> (yes: bool)
    ensures
        yes == (counter == 0),
{
    counter == 0
}

/// Where the main task of the rendezvous stands.
#[derive(Clone, Copy, Debug, PartialEq, Eq)]
pub enum ProducerPhase {
    Start,
    AwaitAll,
    Broadcast,
    AwaitNone,
    Done,
}

/// What the main task of the rendezvous does next.
#[derive(Clone, Copy, Debug, PartialEq, Eq)]
pub enum ProducerAction {
    SpawnWorkers,
    /// One round of a wait on the rendezvous queue, with the condition as it
    /// stands now.
    WaitOnRendezvous { satisfied: bool },
    /// Notifies every waiter of the release queue.
    Broadcast { resched: bool },
    Finish,
}

/// The program of the main task of the rendezvous, with the shared counter
/// at `counter`: it spawns the workers, waits until all have arrived,
/// releases them, and waits until all have left. A wait whose condition does
/// not hold is made again when the task next runs.
pub open spec fn producer_plan(phase: ProducerPhase, counter: usize) -> (
    ProducerPhase,
    ProducerAction,
) {
    match phase {
        ProducerPhase::Start => (ProducerPhase::AwaitAll, ProducerAction::SpawnWorkers),
        ProducerPhase::AwaitAll => (
            if counter == NUM_TASKS {
                ProducerPhase::Broadcast
            } else {
                ProducerPhase::AwaitAll
            },
            ProducerAction::WaitOnRendezvous { satisfied: counter == NUM_TASKS },
        ),
        ProducerPhase::Broadcast => (
            ProducerPhase::AwaitNone,
            ProducerAction::Broadcast { resched: true },
        ),
        ProducerPhase::AwaitNone => (
            if counter == 0 {
                ProducerPhase::Done
            } else {
                ProducerPhase::AwaitNone
            },
            ProducerAction::WaitOnRendezvous { satisfied: counter == 0 },
        ),
        ProducerPhase::Done => (ProducerPhase::Done, ProducerAction::Finish),
    }
}

/// One step of the main task of the rendezvous.
pub fn producer_step(phase: ProducerPhase, counter: usize) -> (next: (
    ProducerPhase,
    ProducerAction,
))
    ensures
        next == producer_plan(phase, counter),
{
    match phase {
        ProducerPhase::Start => (ProducerPhase::AwaitAll, ProducerAction::SpawnWorkers),
        ProducerPhase::AwaitAll => {
            let satisfied = all_arrived(counter);
            (
                if satisfied {
                    ProducerPhase::Broadcast
                } else {
                    ProducerPhase::AwaitAll
                },
                ProducerAction::WaitOnRendezvous { satisfied },
            )
        },
        ProducerPhase::Broadcast => (
            ProducerPhase::AwaitNone,
            ProducerAction::Broadcast { resched: true },
        ),
        ProducerPhase::AwaitNone => {
            let satisfied = all_left(counter);
            (
                if satisfied {
                    ProducerPhase::Done
                } else {
                    ProducerPhase::AwaitNone
                },
                ProducerAction::WaitOnRendezvous { satisfied },
            )
        },
        ProducerPhase::Done => (ProducerPhase::Done, ProducerAction::Finish),
    }
}

/// A worker runs its program in five steps: a timed wait, the count up, the
/// wait for the release, the count down, the exit. Over the whole program it
/// leaves the shared counter as it found it, so that the counter stands at
/// nought again when every worker has left.
pub proof fn law_worker_program()
    ensures
        ({
            let first = worker_plan(WorkerPhase::Start);
            let second = worker_plan(first.0);
            let third = worker_plan(second.0);
            let fourth = worker_plan(third.0);
            let fifth = worker_plan(fourth.0);
            &&& first.1 is TimedWait
            &&& second.1 is CountUpAndNotify
            &&& third.1 is WaitForRelease
            &&& fourth.1 is CountDownAndNotify
            &&& fifth.1 is Exit
            &&& worker_plan(fifth.0) == fifth
            &&& counter_change(first.1) + counter_change(second.1) + counter_change(third.1)
                + counter_change(fourth.1) + counter_change(fifth.1) == 0
        }),
{
}

/// The main task of the rendezvous releases the workers only when all have
/// arrived, and is done only when all have left: it comes to the broadcast
/// from no wait but the one that saw the counter at the number of workers,
/// broadcasts nowhere else, and comes to its end from no wait but the one
/// that saw the counter at nought. Since a worker counts down only after its
/// wait for the release (`law_worker_program`), the counter rises to the
/// number of workers before it falls.
pub proof fn law_producer_program(phase: ProducerPhase, counter: usize)
    ensures
        producer_plan(phase, counter).1 is Broadcast <==> phase is Broadcast,
        producer_plan(phase, counter).0 is Broadcast <==> phase is AwaitAll && counter
            == NUM_TASKS,
        producer_plan(phase, counter).0 is Done <==> phase is Done || (phase is AwaitNone
            && counter == 0),
        producer_plan(phase, counter).1 is Finish <==> phase is Done,
{
}

/// Whether a worker in `phase` stands counted: it has counted up and has
/// not yet counted down.
pub open spec fn is_counted(phase: WorkerPhase) -> bool {
    phase is Arrived || phase is Released
}

/// The shared counter, where the workers stand in `phases`: the number of
/// workers that stand counted.
pub open spec fn counter_of(phases: Seq<WorkerPhase>) -> nat
    decreases phases.len(),
{
    if phases.len() == 0 {
        0
    } else {
        counter_of(phases.drop_last()) + (if is_counted(phases.last()) {
            1nat
        } else {
            0nat
        })
    }
}

/// The shared counter stays within its bounds: it is never below nought and
/// never above the number of workers. It stands at the number of workers
/// exactly when every worker stands counted, which is the condition that
/// `all_arrived` tests, and at nought exactly when none does, which is the
/// condition that `all_left` tests.
pub proof fn law_counter_bounds(phases: Seq<WorkerPhase>)
    ensures
        0 <= counter_of(phases) <= phases.len(),
        counter_of(phases) == phases.len() <==> (forall|i: int|
            0 <= i < phases.len() ==> is_counted(#[trigger] phases[i])),
        counter_of(phases) == 0 <==> (forall|i: int|
            0 <= i < phases.len() ==> !is_counted(#[trigger] phases[i])),
    decreases phases.len(),
{
    if phases.len() > 0 {
        let front = phases.drop_last();
        law_counter_bounds(front);
        assert forall|i: int| 0 <= i < front.len() implies front[i] == phases[i] by {}
        if counter_of(phases) == phases.len() {
            assert forall|i: int| 0 <= i < phases.len() implies is_counted(
                #[trigger] phases[i],
            ) by {
                if i < front.len() {
                    assert(is_counted(front[i]));
                }
            }
        }
        if forall|i: int| 0 <= i < phases.len() ==> is_counted(#[trigger] phases[i]) {
            assert forall|i: int| 0 <= i < front.len() implies is_counted(
                #[trigger] front[i],
            ) by {
                assert(is_counted(phases[i]));
            }
            assert(is_counted(phases[phases.len() - 1]));
        }
        if counter_of(phases) == 0 {
            assert forall|i: int| 0 <= i < phases.len() implies !is_counted(
                #[trigger] phases[i],
            ) by {
                if i < front.len() {
                    assert(!is_counted(front[i]));
                }
            }
        }
        if forall|i: int| 0 <= i < phases.len() ==> !is_counted(#[trigger] phases[i]) {
            assert forall|i: int| 0 <= i < front.len() implies !is_counted(
                #[trigger] front[i],
            ) by {
                assert(!is_counted(phases[i]));
            }
            assert(!is_counted(phases[phases.len() - 1]));
        }
    }
}

/// One step of one worker moves the shared counter by what its action says:
/// up by one on arrival, down by one on leaving, not at all otherwise. With
/// `law_counter_bounds` and `law_worker_program`: the counter moves in steps
/// of one, each worker adds once and takes off once, and the counter never
/// passes below nought or above the number of workers.
pub proof fn law_counter_step(phases: Seq<WorkerPhase>, worker: int)
    requires
        0 <= worker < phases.len(),
    ensures
        counter_of(phases.update(worker, worker_plan(phases[worker]).0)) == counter_of(phases)
            + counter_change(worker_plan(phases[worker]).1),
    decreases phases.len(),
{
    let next = phases.update(worker, worker_plan(phases[worker]).0);
    if worker == phases.len() - 1 {
        assert(next.drop_last() =~= phases.drop_last());
    } else {
        let front = phases.drop_last();
        assert(front[worker] == phases[worker]);
        assert(next.drop_last() =~= front.update(worker, worker_plan(front[worker]).0));
        law_counter_step(front, worker);
    }
}

/// The time that a task of a storm sleeps in all, if each of its sleeps
/// overruns by `late`.
pub open spec fn storm_millis(rounds: usize, millis: u64, late: u64) -> int {
    rounds * (millis + late)
}

/// The background task of the sleep storm is done before the main task
/// returns. The main task returns when every worker has finished
/// (`keep_polling`), a worker sleeps `SLEEPER_ROUNDS` times `SLEEPER_MILLIS`
/// and no sleep ends before its deadline. The background task is spawned
/// before the workers and sleeps a third of that time in all; it is done
/// first even if each of its wakes comes late by up to two of its own sleeps.
pub proof fn law_background_ends_first(late: u64)
    requires
        late <= 2 * BACKGROUND_MILLIS,
    ensures
        storm_millis(BACKGROUND_ROUNDS, BACKGROUND_MILLIS, late) <= storm_millis(
            SLEEPER_ROUNDS,
            SLEEPER_MILLIS,
            0,
        ),
{
}

} // verus!
