//! The executor: the task table and the queues, and the steps on them that
//! every operation is made of. Each step runs inside a critical section.

use vstd::prelude::*;
use crate::irq::{assert_irq_disabled, assert_irq_enabled, assert_irq_enabled_and_disabled,
    disable_irqs, enable_irqs, IrqGuard, IrqMask};
use crate::preserve::{lemma_add_queue_wf, lemma_block_current_wf, lemma_boot_wf,
    lemma_dispatch_wf, lemma_expire_head_wf, lemma_no_timer, lemma_not_queued, lemma_not_ready,
    lemma_requeue_current_wf, lemma_retire_current_wf, lemma_sleep_current_wf, lemma_spawn_wf,
    lemma_wake_head_wf, lemma_wf_with_irq};
use crate::queue::TaskQueue;
use crate::sleep_queue::SleepQueue;
use crate::state::State;
use crate::task::{Task, TaskState, WakeReason};

verus! {

/// The concurrency core of one processor.
#[derive(Debug)]
pub struct Executor {
    tasks: Vec<Task>,
    current: Option<usize>,
    ready: TaskQueue,
    sleepers: SleepQueue,
    queues: Vec<TaskQueue>,
    irq: IrqMask,
    now: u64,
}

impl View for Executor {
    type V = State;

    closed spec fn view(&self) -> State {
        State {
            tasks: self.tasks@,
            current: self.current,
            ready: self.ready@,
            sleepers: self.sleepers@,
            queues: Seq::new(self.queues@.len(), |q: int| self.queues@[q]@),
            irq_enabled: self.irq.enabled(),
            now: self.now,
        }
    }
}

impl Executor {
    /// The executor's invariant: that of the state it stands for.
    pub open spec fn wf(&self) -> bool {
        self@.wf()
    }

    /// Whether the executor is inside a critical section.
    pub open spec fn masked(&self) -> bool {
        !self@.irq_enabled
    }

    /// An executor on which the boot context is the one task, running, with
    /// interrupts enabled.
    pub fn new(context: u64) -> (executor: Executor)
        ensures
            executor@ == State::boot(context),
            executor.wf(),
            executor@.disciplined(),
    {
        let mut tasks: Vec<Task> = Vec::new();
        tasks.push(Task::new(0, context).run());
        let executor = Executor {
            tasks,
            current: Some(0),
            ready: TaskQueue::new(),
            sleepers: SleepQueue::new(),
            queues: Vec::new(),
            irq: IrqMask::observed(true),
            now: 0,
        };
        proof {
            lemma_boot_wf(context);
            assert(executor@ =~~= State::boot(context));
            assert(executor@.tasks[0].irq_saved);
        }
        executor
    }

    /// The running task; `None` while the executor idles.
    pub fn current(&self) -> (task: Option<usize>)
        ensures
            task == self@.current,
    {
        self.current
    }

    /// The latest instant that a tick has reported.
    pub fn now(&self) -> (instant: u64)
        ensures
            instant == self@.now,
    {
        self.now
    }

    /// Whether interrupts are enabled.
    pub fn irqs_enabled(&self) -> (on: bool)
        ensures
            on == self@.irq_enabled,
    {
        self.irq.irqs_enabled()
    }

    /// The number of tasks that are ready to run.
    pub fn ready_len(&self) -> (n: usize)
        ensures
            n == self@.ready.len(),
    {
        self.ready.len()
    }

    /// The number of wait queues.
    pub fn queue_count(&self) -> (n: usize)
        ensures
            n == self@.queues.len(),
    {
        self.queues.len()
    }

    /// The number of tasks ever created, ended ones included.
    pub fn task_count(&self) -> (n: usize)
        ensures
            n == self@.tasks.len(),
    {
        self.tasks.len()
    }

    /// The task with identifier `id`.
    pub fn task(&self, id: usize) -> (task: Option<Task>)
        ensures
            task == (if self@.has_task(id) {
                Some(self@.tasks[id as int])
            } else {
                None
            }),
    {
        if id < self.tasks.len() {
            Some(self.tasks[id])
        } else {
            None
        }
    }

    /// The ready queue.
    pub fn ready_queue(&self) -> (queue: &TaskQueue)
        ensures
            queue@ == self@.ready,
    {
        &self.ready
    }

    /// The sleep queue.
    pub fn sleep_queue(&self) -> (queue: &SleepQueue)
        ensures
            queue@ == self@.sleepers,
    {
        &self.sleepers
    }

    /// The block list of wait queue `queue`.
    pub fn wait_queue(&self, queue: usize) -> (list: Option<&TaskQueue>)
        ensures
            match list {
                Some(list) => self@.has_queue(queue) && list@ == self@.queues[queue as int],
                None => !self@.has_queue(queue),
            },
    {
        if queue < self.queues.len() {
            Some(&self.queues[queue])
        } else {
            None
        }
    }

    /// Task code masks interrupts.
    pub fn disable_irqs(&mut self)
        ensures
            final(self)@ == old(self)@.with_irq(false),
    {
        disable_irqs(&mut self.irq);
    }

    /// Task code unmasks interrupts.
    pub fn enable_irqs(&mut self)
        ensures
            final(self)@ == old(self)@.with_irq(true),
    {
        enable_irqs(&mut self.irq);
    }

    /// The check that the running code makes where it must run unmasked.
    pub fn assert_irq_enabled(&self)
        requires
            self@.irq_enabled,
    {
        assert_irq_enabled(&self.irq);
    }

    /// The check that the running code makes inside a masked window.
    pub fn assert_irq_disabled(&self)
        requires
            !self@.irq_enabled,
    {
        assert_irq_disabled(&self.irq);
    }

    /// The running code checks that interrupts are enabled, masks them,
    /// checks that the mask took effect, and unmasks them again. Nothing else
    /// changes.
    pub fn assert_irq_enabled_and_disabled(&mut self)
        requires
            old(self)@.irq_enabled,
        ensures
            final(self)@ == old(self)@,
    {
        assert_irq_enabled_and_disabled(&mut self.irq);
        proof {
            assert(self@ =~= old(self)@);
        }
    }

    /// Moves the clock forward to `now`; it never moves back.
    pub(crate) fn advance_clock(&mut self, now: u64)
        requires
            old(self).masked(),
        ensures
            final(self)@ == (State {
                now: if now > old(self)@.now {
                    now
                } else {
                    old(self)@.now
                },
                ..old(self)@
            }),
    {
        if now > self.now {
            self.now = now;
        }
    }

    /// Adds an empty wait queue to the table.
    pub(crate) fn add_queue(&mut self) -> (queue: usize)
        requires
            old(self).wf(),
            old(self).masked(),
        ensures
            final(self).wf(),
            final(self)@ == old(self)@.add_queue(),
            queue == old(self)@.queues.len(),
    {
        let queue = self.queues.len();
        self.queues.push(TaskQueue::new());
        proof {
            assert(self.queues@.len() == self.queues.len());
            lemma_add_queue_wf(old(self)@);
            assert(self@ =~~= old(self)@.add_queue());
        }
        queue
    }

    /// Enters a critical section.
    pub(crate) fn enter(&mut self) -> (guard: IrqGuard)
        ensures
            final(self)@ == old(self)@.with_irq(false),
            guard.prior() == old(self)@.irq_enabled,
    {
        IrqGuard::acquire(&mut self.irq)
    }

    /// Leaves the critical section that `guard` stands for.
    pub(crate) fn leave(&mut self, guard: IrqGuard)
        ensures
            final(self)@ == old(self)@.with_irq(guard.prior()),
    {
        guard.release(&mut self.irq);
    }

    /// Adds a new task to the table and to the tail of the ready queue.
    pub(crate) fn add_task(&mut self, context: u64) -> (id: usize)
        requires
            old(self).wf(),
            old(self).masked(),
        ensures
            final(self).wf(),
            final(self)@ == old(self)@.spawn(context),
            id == old(self)@.tasks.len(),
    {
        let id = self.tasks.len();
        proof {
            lemma_not_ready_beyond(self@, id);
        }
        self.tasks.push(Task::new(id, context));
        self.ready.push_back(id);
        proof {
            assert(self.tasks@.len() == self.tasks.len());
            lemma_spawn_wf(old(self)@, context);
            assert(self@ =~~= old(self)@.spawn(context));
        }
        id
    }

    /// Takes the running task off the processor into `state`. The task keeps
    /// the guard of the section it entered: its flag is put back when the
    /// task next runs.
    fn park(&mut self, state: TaskState, guard: IrqGuard) -> (c: usize)
        requires
            old(self).wf(),
            old(self).masked(),
            old(self)@.current is Some,
        ensures
            old(self)@.current == Some(c),
            final(self)@ == old(self)@.with_irq(guard.prior()).suspend_current(state).with_irq(
                false,
            ),
            final(self).ready == old(self).ready,
            final(self).sleepers == old(self).sleepers,
            final(self).queues == old(self).queues,
    {
        match self.current {
            Some(c) => {
                let task = self.tasks[c];
                self.tasks.set(c, task.suspend(state, guard.into_prior()));
                self.current = None;
                proof {
                    assert(self@ =~~= old(self)@.with_irq(guard.prior()).suspend_current(
                        state,
                    ).with_irq(false));
                }
                c
            },
            None => 0,
        }
    }

    /// The running task goes to the tail of the ready queue.
    pub(crate) fn requeue_current(&mut self, guard: IrqGuard)
        requires
            old(self).wf(),
            old(self).masked(),
            old(self)@.current is Some,
        ensures
            final(self).wf(),
            final(self)@ == old(self)@.with_irq(guard.prior()).requeue_current().with_irq(false),
    {
        proof {
            lemma_not_ready(self@, self@.current->0);
        }
        let c = self.park(TaskState::Ready, guard);
        self.ready.push_back(c);
        proof {
            let s = old(self)@.with_irq(guard.prior());
            lemma_wf_with_irq(old(self)@, guard.prior());
            lemma_requeue_current_wf(s);
            lemma_wf_with_irq(s.requeue_current(), false);
            assert(self@ =~~= s.requeue_current().with_irq(false));
        }
    }

    /// The running task goes to sleep until `deadline`.
    pub(crate) fn sleep_current(&mut self, deadline: u64, guard: IrqGuard)
        requires
            old(self).wf(),
            old(self).masked(),
            old(self)@.current is Some,
        ensures
            final(self).wf(),
            final(self)@ == old(self)@.with_irq(guard.prior()).sleep_current(deadline).with_irq(
                false,
            ),
    {
        proof {
            lemma_no_timer(self@, self@.current->0);
        }
        let c = self.park(TaskState::Sleeping { until: deadline }, guard);
        self.sleepers.arm(deadline, c);
        proof {
            let s = old(self)@.with_irq(guard.prior());
            lemma_wf_with_irq(old(self)@, guard.prior());
            lemma_sleep_current_wf(s, deadline);
            lemma_wf_with_irq(s.sleep_current(deadline), false);
            assert(self@ =~~= s.sleep_current(deadline).with_irq(false));
        }
    }

    /// The running task blocks at the tail of wait queue `queue`, with a
    /// timer if the wait has a deadline.
    pub(crate) fn block_current(&mut self, queue: usize, deadline: Option<u64>, guard: IrqGuard)
        requires
            old(self).wf(),
            old(self).masked(),
            old(self)@.current is Some,
            old(self)@.has_queue(queue),
        ensures
            final(self).wf(),
            final(self)@ == old(self)@.with_irq(guard.prior()).block_current(
                queue,
                deadline,
            ).with_irq(false),
    {
        proof {
            lemma_no_timer(self@, self@.current->0);
            lemma_not_queued(self@, self@.current->0, queue as int);
        }
        let c = self.park(TaskState::Waiting { queue, deadline }, guard);
        self.queues[queue].push_back(c);
        match deadline {
            Some(d) => {
                self.sleepers.arm(d, c);
            },
            None => {},
        }
        proof {
            let s = old(self)@.with_irq(guard.prior());
            lemma_wf_with_irq(old(self)@, guard.prior());
            lemma_block_current_wf(s, queue, deadline);
            lemma_wf_with_irq(s.block_current(queue, deadline), false);
            assert(self@ =~~= s.block_current(queue, deadline).with_irq(false));
        }
    }

    /// The running task ends.
    pub(crate) fn retire_current(&mut self, guard: IrqGuard)
        requires
            old(self).wf(),
            old(self).masked(),
            old(self)@.current is Some,
        ensures
            final(self).wf(),
            final(self)@ == old(self)@.with_irq(guard.prior()).retire_current().with_irq(false),
    {
        let _c = self.park(TaskState::Terminated, guard);
        proof {
            let s = old(self)@.with_irq(guard.prior());
            lemma_wf_with_irq(old(self)@, guard.prior());
            lemma_retire_current_wf(s);
            lemma_wf_with_irq(s.retire_current(), false);
        }
    }

    /// Hands the processor to the head of the ready queue and leaves the
    /// critical section with the flag that the task saved when it was suspended. With
    /// nothing ready the executor idles, interrupts enabled.
    pub(crate) fn dispatch(&mut self)
        requires
            old(self).wf(),
            old(self).masked(),
            old(self)@.current is None,
        ensures
            final(self).wf(),
            final(self)@ == old(self)@.dispatch(),
    {
        proof {
            lemma_dispatch_wf(self@);
        }
        match self.ready.pop_front() {
            Some(next) => {
                assert(self@.has_task(old(self)@.ready[0]));
                let task = self.tasks[next];
                self.tasks.set(next, task.run());
                self.current = Some(next);
                IrqGuard::resumed(task.irq_saved).release(&mut self.irq);
            },
            None => {
                enable_irqs(&mut self.irq);
            },
        }
        proof {
            assert(self@ =~~= old(self)@.dispatch());
        }
    }

    /// Fires the timer at the head of the sleep queue if it is due, and says
    /// whether it did.
    pub(crate) fn expire_head(&mut self) -> (fired: bool)
        requires
            old(self).wf(),
            old(self).masked(),
        ensures
            final(self).wf(),
            fired == (old(self)@.sleepers.len() > 0 && old(self)@.sleepers[0].deadline <= old(
                self,
            )@.now),
            final(self)@ == (if fired {
                old(self)@.expire_head()
            } else {
                old(self)@
            }),
    {
        match self.sleepers.pop_due(self.now) {
            None => false,
            Some(entry) => {
                let t = entry.task;
                proof {
                    assert(old(self)@.has_task(old(self)@.sleepers[0].task));
                    lemma_not_ready(old(self)@, t);
                    lemma_expire_head_wf(old(self)@);
                }
                let task = self.tasks[t];
                match task.state {
                    TaskState::Waiting { queue, .. } => {
                        assert(old(self)@.has_queue(queue));
                        self.queues[queue].remove(t);
                    },
                    _ => {},
                }
                self.tasks.set(t, task.wake(WakeReason::TimedOut));
                self.ready.push_back(t);
                proof {
                    assert(self@ =~~= old(self)@.expire_head());
                }
                true
            },
        }
    }

    /// Notifies the oldest waiter of `queue` if there is one, and says
    /// whether there was.
    pub(crate) fn wake_head(&mut self, queue: usize) -> (woken: bool)
        requires
            old(self).wf(),
            old(self).masked(),
            old(self)@.has_queue(queue),
        ensures
            final(self).wf(),
            woken == (old(self)@.queues[queue as int].len() > 0),
            final(self)@ == (if woken {
                old(self)@.wake_head(queue)
            } else {
                old(self)@
            }),
    {
        match self.queues[queue].pop_front() {
            None => {
                proof {
                    assert(self@ =~~= old(self)@);
                }
                false
            },
            Some(t) => {
                proof {
                    assert(old(self)@.has_task(old(self)@.queues[queue as int][0]));
                    lemma_not_ready(old(self)@, t);
                    lemma_wake_head_wf(old(self)@, queue);
                }
                self.sleepers.cancel(t);
                let task = self.tasks[t];
                self.tasks.set(t, task.wake(WakeReason::Notified));
                self.ready.push_back(t);
                proof {
                    assert(self@ =~~= old(self)@.wake_head(queue));
                }
                true
            },
        }
    }
}

/// An identifier past the end of the task table is not in the ready queue.
proof fn lemma_not_ready_beyond(s: State, id: usize)
    requires
        s.wf(),
        id >= s.tasks.len(),
    ensures
        !s.ready.contains(id),
{
    if s.ready.contains(id) {
        let k = choose|k: int| 0 <= k < s.ready.len() && s.ready[k] == id;
        assert(s.has_task(s.ready[k]));
    }
}

} // verus!
