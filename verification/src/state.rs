//! The executor as a mathematical state machine: the state, its transitions,
//! and the invariant that every transition keeps.

use vstd::prelude::*;
use crate::task::{Task, TaskState, WakeReason};

verus! {

/// An armed timer: `task` is to be woken once the clock reaches `deadline`.
#[derive(Clone, Copy, Debug, PartialEq, Eq)]
pub struct TimerEntry {
    pub deadline: u64,
    pub task: usize,
}

/// The result of a conditional or timed wait.
#[derive(Clone, Copy, Debug, PartialEq, Eq)]
pub enum WaitOutcome {
    /// The predicate held: the caller goes on without blocking.
    Satisfied,
    /// The deadline has passed and the predicate does not hold.
    TimedOut,
    /// The predicate does not hold, and no deadline has come: the caller does
    /// not go on. The running task is now blocked on the queue and checks
    /// again when it next runs. On an idle executor, which has no task to
    /// block, nothing has changed.
    Blocked,
}

/// What can happen to the executor: each operation with its arguments.
#[derive(Clone, Copy, Debug, PartialEq, Eq)]
pub enum Event {
    Spawn { context: u64 },
    AddQueue,
    Yield,
    Sleep { duration: u64 },
    SleepUntil { deadline: u64 },
    Exit,
    Tick { now: u64 },
    Wait { queue: usize },
    WaitUntil { queue: usize, satisfied: bool },
    WaitDeadlineUntil { queue: usize, deadline: u64, satisfied: bool },
    WaitTimeoutUntil { queue: usize, timeout: u64, satisfied: bool },
    NotifyOne { queue: usize, resched: bool },
    NotifyAll { queue: usize, resched: bool },
}

/// The whole state of the executor.
#[verifier::ext_equal]
pub struct State {
    /// The task table; a task's identifier is its index.
    pub tasks: Seq<Task>,
    /// The running task; `None` while the executor idles.
    pub current: Option<usize>,
    /// The ready queue, head first.
    pub ready: Seq<usize>,
    /// The sleep queue: by deadline, equal deadlines in order of arrival.
    pub sleepers: Seq<TimerEntry>,
    /// The block list of each wait queue, oldest waiter first.
    pub queues: Seq<Seq<usize>>,
    /// The interrupt flag, as the running code sees it.
    pub irq_enabled: bool,
    /// The latest instant that a tick has reported.
    pub now: u64,
}

/// `now + duration`, held at the largest instant that the clock can show.
pub open spec fn deadline_after(now: u64, duration: u64) -> u64 {
    if now + duration > u64::MAX {
        u64::MAX
    } else {
        (now + duration) as u64
    }
}

/// The number of timers at the head of `timers` that are due at `instant`: the
/// length of the longest prefix whose deadlines are all at most `instant`.
pub open spec fn due_count(timers: Seq<TimerEntry>, instant: u64) -> nat
    decreases timers.len(),
{
    if timers.len() == 0 || timers[0].deadline > instant {
        0
    } else {
        1 + due_count(timers.drop_first(), instant)
    }
}

/// Whether the deadlines never decrease along `timers`.
pub open spec fn sorted_by_deadline(timers: Seq<TimerEntry>) -> bool {
    forall|a: int, b: int| 0 <= a <= b < timers.len() ==> timers[a].deadline <= timers[b].deadline
}

/// Whether no two timers in `timers` are armed for the same task.
pub open spec fn distinct_tasks(timers: Seq<TimerEntry>) -> bool {
    forall|a: int, b: int|
        0 <= a < b < timers.len() ==> (#[trigger] timers[a]).task != (#[trigger] timers[b]).task
}

/// Whether some timer in `timers` is armed for `task`.
pub open spec fn has_timer(timers: Seq<TimerEntry>, task: usize) -> bool {
    exists|k: int| 0 <= k < timers.len() && #[trigger] timers[k].task == task
}

/// The position of the timer that is armed for `task`.
pub open spec fn timer_index(timers: Seq<TimerEntry>, task: usize) -> int {
    choose|k: int| 0 <= k < timers.len() && #[trigger] timers[k].task == task
}

/// `timers` with a new entry put behind the leading entries that are due no
/// later. In a sorted queue that is behind every such entry: the queue stays
/// sorted, and equal deadlines keep their order of arrival.
pub open spec fn arm_timer(timers: Seq<TimerEntry>, entry: TimerEntry) -> Seq<TimerEntry> {
    timers.insert(due_count(timers, entry.deadline) as int, entry)
}

/// `timers` without the timer of `task`, if it has one.
pub open spec fn cancel_timer(timers: Seq<TimerEntry>, task: usize) -> Seq<TimerEntry> {
    if has_timer(timers, task) {
        timers.remove(timer_index(timers, task))
    } else {
        timers
    }
}

/// `list` without `task`, if it holds it.
pub open spec fn without_task(list: Seq<usize>, task: usize) -> Seq<usize> {
    if list.contains(task) {
        list.remove(list.index_of(task))
    } else {
        list
    }
}

impl State {
    /// The executor as it comes up: the boot context is task 0 and runs,
    /// interrupts are enabled, nothing else exists yet.
    pub open spec fn boot(context: u64) -> State {
        State {
            tasks: seq![Task::fresh(0, context).with_state(TaskState::Running)],
            current: Some(0usize),
            ready: Seq::empty(),
            sleepers: Seq::empty(),
            queues: Seq::empty(),
            irq_enabled: true,
            now: 0,
        }
    }

    /// Whether `task` names an entry of the task table.
    pub open spec fn has_task(self, task: usize) -> bool {
        task < self.tasks.len()
    }

    /// Whether `queue` names a wait queue.
    pub open spec fn has_queue(self, queue: usize) -> bool {
        queue < self.queues.len()
    }

    /// Whether `task` is ready or running.
    pub open spec fn is_runnable(self, task: usize) -> bool {
        self.has_task(task) && (self.tasks[task as int].state is Ready
            || self.tasks[task as int].state is Running)
    }

    // ----- the invariant -----

    /// Identifiers are table positions, and every task and wait queue can be
    /// named by a machine word.
    pub open spec fn ids_ok(self) -> bool {
        &&& self.tasks.len() <= usize::MAX
        &&& self.queues.len() <= usize::MAX
        &&& forall|i: int| 0 <= i < self.tasks.len() ==> (#[trigger] self.tasks[i]).id == i
    }

    /// The running task, and no other, is in state `Running`.
    pub open spec fn current_ok(self) -> bool {
        &&& self.current matches Some(c) ==> self.has_task(c) && self.tasks[c as int].state is Running
        &&& forall|i: int|
            0 <= i < self.tasks.len() && (#[trigger] self.tasks[i]).state is Running
                ==> self.current == Some(i as usize)
    }

    /// The ready queue holds exactly the tasks in state `Ready`, each once.
    pub open spec fn ready_ok(self) -> bool {
        &&& self.ready.no_duplicates()
        &&& forall|k: int|
            0 <= k < self.ready.len() ==> self.has_task(#[trigger] self.ready[k])
                && self.tasks[self.ready[k] as int].state is Ready
        &&& forall|i: int|
            0 <= i < self.tasks.len() && (#[trigger] self.tasks[i]).state is Ready
                ==> self.ready.contains(i as usize)
    }

    /// The sleep queue is sorted and holds exactly one timer for each blocked
    /// task that has a deadline, armed for that deadline.
    pub open spec fn sleepers_ok(self) -> bool {
        &&& sorted_by_deadline(self.sleepers)
        &&& distinct_tasks(self.sleepers)
        &&& forall|k: int|
            0 <= k < self.sleepers.len() ==> self.has_task((#[trigger] self.sleepers[k]).task)
                && self.tasks[self.sleepers[k].task as int].state.deadline() == Some(
                self.sleepers[k].deadline,
            )
        &&& forall|i: int|
            0 <= i < self.tasks.len() && (#[trigger] self.tasks[i]).state.deadline() is Some
                ==> has_timer(self.sleepers, i as usize)
    }

    /// Each wait queue holds exactly the tasks that wait on it, each once.
    pub open spec fn queues_ok(self) -> bool {
        &&& forall|q: int|
            0 <= q < self.queues.len() ==> (#[trigger] self.queues[q]).no_duplicates()
        &&& forall|q: int, k: int|
            0 <= q < self.queues.len() && 0 <= k < self.queues[q].len() ==> self.has_task(
                #[trigger] self.queues[q][k],
            ) && self.tasks[self.queues[q][k] as int].state.waiting_on() == Some(q as usize)
        &&& forall|i: int|
            0 <= i < self.tasks.len() && (#[trigger] self.tasks[i]).state is Waiting ==> {
                let q = self.tasks[i].state->queue;
                self.has_queue(q) && self.queues[q as int].contains(i as usize)
            }
    }

    /// The invariant of the executor. Because a task's state names the one
    /// structure that holds it, no task is ever linked into two of them; only
    /// a timed waiter is in its wait queue and has a timer besides.
    pub open spec fn wf(self) -> bool {
        &&& self.ids_ok()
        &&& self.current_ok()
        &&& self.ready_ok()
        &&& self.sleepers_ok()
        &&& self.queues_ok()
    }

    /// Whether task code has kept to the interrupt contract: interrupts are
    /// enabled now, and every suspended task gets them back enabled.
    pub open spec fn disciplined(self) -> bool {
        &&& self.irq_enabled
        &&& forall|i: int|
            0 <= i < self.tasks.len() && (#[trigger] self.tasks[i]).is_suspended()
                ==> self.tasks[i].irq_saved
    }

    // ----- the steps that transitions are made of -----

    /// The state with the interrupt flag set to `irq`.
    pub open spec fn with_irq(self, irq: bool) -> State {
        State { irq_enabled: irq, ..self }
    }

    /// The running task leaves the processor in `state`.
    pub open spec fn suspend_current(self, state: TaskState) -> State {
        let c = self.current->0;
        State {
            tasks: self.tasks.update(
                c as int,
                self.tasks[c as int].suspended(state, self.irq_enabled),
            ),
            current: None,
            ..self
        }
    }

    /// The running task goes to the tail of the ready queue.
    pub open spec fn requeue_current(self) -> State {
        State { ready: self.ready.push(self.current->0), ..self.suspend_current(TaskState::Ready) }
    }

    /// The running task goes to sleep until `deadline`.
    pub open spec fn sleep_current(self, deadline: u64) -> State {
        State {
            sleepers: arm_timer(self.sleepers, TimerEntry { deadline, task: self.current->0 }),
            ..self.suspend_current(TaskState::Sleeping { until: deadline })
        }
    }

    /// The running task blocks at the tail of wait queue `queue`, with a
    /// timer if the wait has a deadline.
    pub open spec fn block_current(self, queue: usize, deadline: Option<u64>) -> State {
        let c = self.current->0;
        State {
            queues: self.queues.update(queue as int, self.queues[queue as int].push(c)),
            sleepers: match deadline {
                Some(d) => arm_timer(self.sleepers, TimerEntry { deadline: d, task: c }),
                None => self.sleepers,
            },
            ..self.suspend_current(TaskState::Waiting { queue, deadline })
        }
    }

    /// The running task ends.
    pub open spec fn retire_current(self) -> State {
        self.suspend_current(TaskState::Terminated)
    }

    /// The processor is handed to the head of the ready queue, which gets the
    /// interrupt flag that it was suspended with. With nothing ready the
    /// executor idles, interrupts enabled.
    pub open spec fn dispatch(self) -> State {
        if self.ready.len() > 0 {
            let next = self.ready[0];
            State {
                tasks: self.tasks.update(
                    next as int,
                    self.tasks[next as int].with_state(TaskState::Running),
                ),
                current: Some(next),
                ready: self.ready.drop_first(),
                irq_enabled: self.tasks[next as int].irq_saved,
                ..self
            }
        } else {
            State { current: None, irq_enabled: true, ..self }
        }
    }

    /// The timer at the head of the sleep queue fires: its task becomes ready.
    /// A timed waiter leaves its wait queue at the same moment.
    pub open spec fn expire_head(self) -> State {
        let t = self.sleepers[0].task;
        State {
            tasks: self.tasks.update(t as int, self.tasks[t as int].woken(WakeReason::TimedOut)),
            ready: self.ready.push(t),
            sleepers: self.sleepers.drop_first(),
            queues: match self.tasks[t as int].state {
                TaskState::Waiting { queue, .. } => self.queues.update(
                    queue as int,
                    without_task(self.queues[queue as int], t),
                ),
                _ => self.queues,
            },
            ..self
        }
    }

    /// Every timer that is due fires, head first.
    pub open spec fn expire_due(self) -> State
        decreases self.sleepers.len(),
    {
        if self.sleepers.len() > 0 && self.sleepers[0].deadline <= self.now {
            self.expire_head().expire_due()
        } else {
            self
        }
    }

    /// The oldest waiter of `queue` is notified: it becomes ready. A timed
    /// waiter loses its timer at the same moment.
    pub open spec fn wake_head(self, queue: usize) -> State {
        let t = self.queues[queue as int][0];
        State {
            tasks: self.tasks.update(t as int, self.tasks[t as int].woken(WakeReason::Notified)),
            ready: self.ready.push(t),
            queues: self.queues.update(queue as int, self.queues[queue as int].drop_first()),
            sleepers: cancel_timer(self.sleepers, t),
            ..self
        }
    }

    /// The `count` oldest waiters of `queue` are notified, oldest first; all
    /// of them if there are no more than `count`.
    pub open spec fn wake_many(self, queue: usize, count: nat) -> State
        decreases count,
    {
        if count > 0 && self.has_queue(queue) && self.queues[queue as int].len() > 0 {
            self.wake_head(queue).wake_many(queue, (count - 1) as nat)
        } else {
            self
        }
    }

    // ----- the transitions -----

    /// `spawn`: a new task, ready, at the tail of the ready queue.
    pub open spec fn spawn(self, context: u64) -> State {
        let id = self.tasks.len() as usize;
        State {
            tasks: self.tasks.push(Task::fresh(id, context)),
            ready: self.ready.push(id),
            ..self
        }
    }

    /// A new, empty wait queue.
    pub open spec fn add_queue(self) -> State {
        State { queues: self.queues.push(Seq::empty()), ..self }
    }

    /// `yield_now`: with nothing ready, no change. Otherwise the running task
    /// goes to the tail of the ready queue and the head runs; an idle
    /// executor just takes up the head.
    pub open spec fn yield_now(self) -> State {
        if self.ready.len() == 0 {
            self
        } else if self.current is Some {
            self.requeue_current().dispatch()
        } else {
            self.dispatch()
        }
    }

    /// `sleep_until`: the running task blocks until the clock reaches
    /// `deadline`, and the next ready task runs. A deadline that has already
    /// come is one `yield_now`; an idle executor has nobody to put to sleep.
    pub open spec fn sleep_until(self, deadline: u64) -> State {
        if deadline <= self.now {
            self.yield_now()
        } else if self.current is None {
            self
        } else {
            self.sleep_current(deadline).dispatch()
        }
    }

    /// `sleep`: the running task sleeps until `duration` from now. A zero
    /// duration is one `yield_now`.
    pub open spec fn sleep(self, duration: u64) -> State {
        self.sleep_until(deadline_after(self.now, duration))
    }

    /// The running task ends and the next ready task runs.
    pub open spec fn exit(self) -> State {
        if self.current is None {
            self
        } else {
            self.retire_current().dispatch()
        }
    }

    /// A timer tick at instant `now`: the clock moves forward to it, and
    /// every sleeper and timed waiter whose deadline has come becomes ready,
    /// in deadline order, equal deadlines in order of arrival.
    pub open spec fn tick(self, now: u64) -> State {
        State { now: if now > self.now { now } else { self.now }, ..self }.expire_due()
    }

    /// `wait`: the running task blocks on `queue` until it is notified. An
    /// idle executor has nobody to block.
    pub open spec fn wait(self, queue: usize) -> State {
        if self.current is None {
            self
        } else {
            self.block_current(queue, None).dispatch()
        }
    }

    /// `wait_until`, one check: with the predicate true nothing changes;
    /// otherwise the running task blocks as in `wait`. Check and enqueue are
    /// one transition, so no notification can fall between them.
    pub open spec fn wait_until(self, queue: usize, satisfied: bool) -> State {
        if satisfied {
            self
        } else {
            self.wait(queue)
        }
    }

    /// What `wait_until` tells its caller.
    pub open spec fn wait_until_outcome(satisfied: bool) -> WaitOutcome {
        if satisfied {
            WaitOutcome::Satisfied
        } else {
            WaitOutcome::Blocked
        }
    }

    /// A timed wait, one check against a fixed deadline: nothing changes if
    /// the predicate holds or the deadline has come; otherwise the running
    /// task blocks on `queue` with a timer for the deadline.
    pub open spec fn wait_deadline_until(self, queue: usize, deadline: u64, satisfied: bool)
        -> State {
        if satisfied || self.now >= deadline || self.current is None {
            self
        } else {
            self.block_current(queue, Some(deadline)).dispatch()
        }
    }

    /// What a timed wait tells its caller.
    pub open spec fn wait_deadline_outcome(self, deadline: u64, satisfied: bool) -> WaitOutcome {
        if satisfied {
            WaitOutcome::Satisfied
        } else if self.now >= deadline {
            WaitOutcome::TimedOut
        } else {
            WaitOutcome::Blocked
        }
    }

    /// `wait_timeout_until`, the first check: the deadline is `timeout` from
    /// now.
    pub open spec fn wait_timeout_until(self, queue: usize, timeout: u64, satisfied: bool)
        -> State {
        self.wait_deadline_until(queue, deadline_after(self.now, timeout), satisfied)
    }

    /// `notify_one`: the oldest waiter of `queue`, if there is one, becomes
    /// ready; with `resched` the caller then yields.
    pub open spec fn notify_one(self, queue: usize, resched: bool) -> State {
        let woken = if self.has_queue(queue) && self.queues[queue as int].len() > 0 {
            self.wake_head(queue)
        } else {
            self
        };
        if resched {
            woken.yield_now()
        } else {
            woken
        }
    }

    /// `notify_all`: every waiter of `queue` becomes ready, oldest first;
    /// with `resched` the caller then yields.
    pub open spec fn notify_all(self, queue: usize, resched: bool) -> State {
        let woken = self.wake_many(queue, self.queues[queue as int].len());
        if resched {
            woken.yield_now()
        } else {
            woken
        }
    }

    // ----- the state machine -----

    /// Whether `event` can happen in this state: a new task or wait queue
    /// must still get an identifier, and an operation on a wait queue must
    /// name one that exists.
    pub open spec fn accepts(self, event: Event) -> bool {
        match event {
            Event::Spawn { .. } => self.tasks.len() < usize::MAX,
            Event::AddQueue => self.queues.len() < usize::MAX,
            Event::Wait { queue } => self.has_queue(queue),
            Event::WaitUntil { queue, .. } => self.has_queue(queue),
            Event::WaitDeadlineUntil { queue, .. } => self.has_queue(queue),
            Event::WaitTimeoutUntil { queue, .. } => self.has_queue(queue),
            Event::NotifyOne { queue, .. } => self.has_queue(queue),
            Event::NotifyAll { queue, .. } => self.has_queue(queue),
            _ => true,
        }
    }

    /// The state after `event`.
    pub open spec fn step(self, event: Event) -> State {
        match event {
            Event::Spawn { context } => self.spawn(context),
            Event::AddQueue => self.add_queue(),
            Event::Yield => self.yield_now(),
            Event::Sleep { duration } => self.sleep(duration),
            Event::SleepUntil { deadline } => self.sleep_until(deadline),
            Event::Exit => self.exit(),
            Event::Tick { now } => self.tick(now),
            Event::Wait { queue } => self.wait(queue),
            Event::WaitUntil { queue, satisfied } => self.wait_until(queue, satisfied),
            Event::WaitDeadlineUntil { queue, deadline, satisfied } => self.wait_deadline_until(
                queue,
                deadline,
                satisfied,
            ),
            Event::WaitTimeoutUntil { queue, timeout, satisfied } => self.wait_timeout_until(
                queue,
                timeout,
                satisfied,
            ),
            Event::NotifyOne { queue, resched } => self.notify_one(queue, resched),
            Event::NotifyAll { queue, resched } => self.notify_all(queue, resched),
        }
    }

    /// Whether each of `events` can happen in the state that the events
    /// before it lead to.
    pub open spec fn accepts_all(self, events: Seq<Event>) -> bool
        decreases events.len(),
    {
        if events.len() == 0 {
            true
        } else {
            self.accepts_all(events.drop_last()) && self.run(events.drop_last()).accepts(
                events.last(),
            )
        }
    }

    /// The state after `events`, one after the other.
    pub open spec fn run(self, events: Seq<Event>) -> State
        decreases events.len(),
    {
        if events.len() == 0 {
            self
        } else {
            self.run(events.drop_last()).step(events.last())
        }
    }

    // ----- where a task is linked -----

    /// Whether `task` stands in the ready queue.
    pub open spec fn in_ready_queue(self, task: usize) -> bool {
        self.ready.contains(task)
    }

    /// Whether `task` has a timer in the sleep queue.
    pub open spec fn in_sleep_queue(self, task: usize) -> bool {
        has_timer(self.sleepers, task)
    }

    /// Whether `task` stands in the block list of wait queue `queue`.
    pub open spec fn in_wait_queue(self, task: usize, queue: usize) -> bool {
        self.has_queue(queue) && self.queues[queue as int].contains(task)
    }

    /// Whether `task` stands in the block list of any wait queue.
    pub open spec fn in_some_wait_queue(self, task: usize) -> bool {
        exists|queue: usize| self.in_wait_queue(task, queue)
    }
}

} // verus!
