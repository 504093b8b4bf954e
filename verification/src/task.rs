//! Tasks and the states they move through.

use vstd::prelude::*;

verus! {

/// Where a task stands in its life cycle. A blocked task carries what it is
/// blocked on: a sleeper its wake deadline, a waiter its wait queue and, for a
/// timed wait, the deadline of the timeout.
#[derive(Clone, Copy, Debug, PartialEq, Eq)]
pub enum TaskState {
    Ready,
    Running,
    Sleeping { until: u64 },
    Waiting { queue: usize, deadline: Option<u64> },
    Terminated,
}

/// What ended a task's last block.
#[derive(Clone, Copy, Debug, PartialEq, Eq)]
pub enum WakeReason {
    Notified,
    TimedOut,
}

/// A unit of cooperative execution.
#[derive(Clone, Copy, Debug, PartialEq, Eq)]
pub struct Task {
    /// Unique identifier: the task's position in the task table.
    pub id: usize,
    pub state: TaskState,
    /// Opaque handle of the saved execution context, as the environment gave
    /// it at spawn.
    pub context: u64,
    /// The interrupt flag to put back when the task next runs.
    pub irq_saved: bool,
    /// What ended the last block; `None` while blocked and before any block.
    pub last_wake: Option<WakeReason>,
}

impl TaskState {
    /// Whether the task waits for a deadline or a notification.
    pub open spec fn is_blocked(self) -> bool {
        self is Sleeping || self is Waiting
    }

    /// The deadline that a timer is armed for, if any.
    pub open spec fn deadline(self) -> Option<u64> {
        match self {
            TaskState::Sleeping { until } => Some(until),
            TaskState::Waiting { deadline, .. } => deadline,
            _ => None,
        }
    }

    /// The wait queue that holds the task, if any.
    pub open spec fn waiting_on(self) -> Option<usize> {
        match self {
            TaskState::Waiting { queue, .. } => Some(queue),
            _ => None,
        }
    }
}

/// The life cycle of a task, as one event can move it: a ready task may be
/// put on the processor; the running task may go back to the ready queue,
/// block or end; a sleeper becomes ready when its timer fires; a waiter
/// becomes ready when it is notified or its timer fires, and may be put on the
/// processor by the yield that a notification asks for; an ended task stays
/// ended.
pub open spec fn may_become(before: TaskState, after: TaskState) -> bool {
    match before {
        TaskState::Ready => after is Ready || after is Running,
        TaskState::Running => true,
        TaskState::Sleeping { .. } => after == before || after is Ready,
        TaskState::Waiting { .. } => after == before || after is Ready || after is Running,
        TaskState::Terminated => after is Terminated,
    }
}

impl Task {
    /// A task as `spawn` makes it: ready, to start with interrupts enabled.
    pub open spec fn fresh(id: usize, context: u64) -> Task {
        Task { id, state: TaskState::Ready, context, irq_saved: true, last_wake: None }
    }

    /// The task put into `state`, all else kept.
    pub open spec fn with_state(self, state: TaskState) -> Task {
        Task { state, ..self }
    }

    /// The task as it leaves the processor: in `state`, with the interrupt flag
    /// of its caller saved. Entering a block clears the last wake reason.
    pub open spec fn suspended(self, state: TaskState, irq: bool) -> Task {
        Task {
            state,
            irq_saved: irq,
            last_wake: if state.is_blocked() { None } else { self.last_wake },
            ..self
        }
    }

    /// The task as a wake leaves it: ready, with the reason recorded.
    pub open spec fn woken(self, reason: WakeReason) -> Task {
        Task { state: TaskState::Ready, last_wake: Some(reason), ..self }
    }

    /// Whether the task is parked somewhere, to run again later.
    pub open spec fn is_suspended(self) -> bool {
        self.state is Ready || self.state.is_blocked()
    }

    /// Makes a task as `spawn` does.
    pub fn new(id: usize, context: u64) -> (task: Task)
        ensures
            task == Task::fresh(id, context),
    {
        Task { id, state: TaskState::Ready, context, irq_saved: true, last_wake: None }
    }

    /// Puts the task on the processor.
    pub fn run(self) -> (task: Task)
        ensures
            task == self.with_state(TaskState::Running),
    {
        Task { state: TaskState::Running, ..self }
    }

    /// Takes the task off the processor into `state`, saving the interrupt
    /// flag `irq` for its return.
    pub fn suspend(self, state: TaskState, irq: bool) -> (task: Task)
        ensures
            task == self.suspended(state, irq),
    {
        let last_wake = match state {
            TaskState::Sleeping { .. } => None,
            TaskState::Waiting { .. } => None,
            _ => self.last_wake,
        };
        Task { state, irq_saved: irq, last_wake, ..self }
    }

    /// Ends a block for `reason`.
    pub fn wake(self, reason: WakeReason) -> (task: Task)
        ensures
            task == self.woken(reason),
    {
        Task { state: TaskState::Ready, last_wake: Some(reason), ..self }
    }
}

} // verus!
