//! Wait queues: blocking on a condition that the caller evaluates, with or
//! without a timeout, and waking waiters in the order in which they blocked.

use vstd::prelude::*;
use crate::executor::Executor;
use crate::laws::law_step_keeps_interrupt_contract;
use crate::order::law_notify_all_order;
use crate::irq::IrqGuard;
use crate::preserve::{lemma_dispatch_irq, lemma_wake_all_step, lemma_wake_head_irq,
    lemma_wake_many_irq, lemma_wf_with_irq};
use crate::state::{deadline_after, Event, State, WaitOutcome};
use crate::timer::deadline_from;

verus! {

impl Executor {
    /// Creates an empty wait queue and returns its identifier.
    pub fn add_wait_queue(&mut self) -> (queue: usize)
        requires
            old(self).wf(),
        ensures
            final(self).wf(),
            final(self)@ == old(self)@.add_queue(),
            queue == old(self)@.queues.len(),
            old(self)@.disciplined() ==> final(self)@.disciplined(),
    {
        let guard = self.enter();
        proof {
            lemma_wf_with_irq(old(self)@, false);
        }
        let queue = self.add_queue();
        self.leave(guard);
        proof {
            assert(self@ =~= old(self)@.add_queue());
            lemma_wf_with_irq(old(self)@.add_queue(), false);
            if old(self)@.disciplined() {
                law_step_keeps_interrupt_contract(old(self)@, Event::AddQueue);
            }
        }
        queue
    }

    /// Inside the critical section of `guard`: blocks the running task at the
    /// tail of `queue`, with a timer if the wait has a deadline, and hands the
    /// processor to the head of the ready queue. An idle executor has nobody
    /// to block and just leaves the section.
    fn block_and_switch(&mut self, queue: usize, deadline: Option<u64>, guard: IrqGuard)
        requires
            old(self).wf(),
            old(self).masked(),
            old(self)@.has_queue(queue),
        ensures
            final(self).wf(),
            final(self)@ == ({
                let entered = old(self)@.with_irq(guard.prior());
                if entered.current is None {
                    entered
                } else {
                    entered.block_current(queue, deadline).dispatch()
                }
            }),
    {
        proof {
            lemma_wf_with_irq(old(self)@, guard.prior());
        }
        match self.current() {
            Some(_) => {
                self.block_current(queue, deadline, guard);
                proof {
                    lemma_dispatch_irq(
                        old(self)@.with_irq(guard.prior()).block_current(queue, deadline),
                        false,
                    );
                }
                self.dispatch();
            },
            None => {
                self.leave(guard);
            },
        }
    }

    /// Blocks the running task on `queue` until it is notified, and runs the
    /// head of the ready queue.
    pub fn wait(&mut self, queue: usize)
        requires
            old(self).wf(),
            old(self)@.has_queue(queue),
        ensures
            final(self).wf(),
            final(self)@ == old(self)@.wait(queue),
            old(self)@.disciplined() ==> final(self)@.disciplined(),
    {
        proof {
            if old(self)@.disciplined() {
                law_step_keeps_interrupt_contract(old(self)@, Event::Wait { queue });
            }
        }
        let guard = self.enter();
        proof {
            lemma_wf_with_irq(old(self)@, false);
            assert(old(self)@.with_irq(false).with_irq(guard.prior()) =~= old(self)@);
        }
        self.block_and_switch(queue, None, guard);
    }

    /// One round of waiting for a condition. `satisfied` is the caller's
    /// predicate as it stands now. If it holds the caller goes on; if not,
    /// the running task blocks on `queue` in the same critical section, so
    /// that no notification can come between the check and the block, and
    /// asks again when it next runs. On an idle executor the answer is the
    /// same, `Blocked`, and nothing changes.
    pub fn wait_until(&mut self, queue: usize, satisfied: bool) -> (outcome: WaitOutcome)
        requires
            old(self).wf(),
            old(self)@.has_queue(queue),
        ensures
            final(self).wf(),
            final(self)@ == old(self)@.wait_until(queue, satisfied),
            outcome == State::wait_until_outcome(satisfied),
            old(self)@.disciplined() ==> final(self)@.disciplined(),
    {
        proof {
            if old(self)@.disciplined() {
                law_step_keeps_interrupt_contract(old(self)@, Event::WaitUntil { queue, satisfied });
            }
        }
        let guard = self.enter();
        proof {
            lemma_wf_with_irq(old(self)@, false);
            assert(old(self)@.with_irq(false).with_irq(guard.prior()) =~= old(self)@);
        }
        if satisfied {
            self.leave(guard);
            WaitOutcome::Satisfied
        } else {
            self.block_and_switch(queue, None, guard);
            WaitOutcome::Blocked
        }
    }

    /// One round of a timed wait against a fixed `deadline`. The caller goes
    /// on if the predicate holds, or if the deadline has come. Otherwise the
    /// running task blocks on `queue` with a timer for the deadline, in the
    /// same critical section as the check: a notification or the timer,
    /// whichever comes first, makes it ready. On an idle executor the answer
    /// is the same, `Blocked`, and nothing changes.
    pub fn wait_deadline_until(&mut self, queue: usize, deadline: u64, satisfied: bool) -> (outcome:
        WaitOutcome)
        requires
            old(self).wf(),
            old(self)@.has_queue(queue),
        ensures
            final(self).wf(),
            final(self)@ == old(self)@.wait_deadline_until(queue, deadline, satisfied),
            outcome == old(self)@.wait_deadline_outcome(deadline, satisfied),
            old(self)@.disciplined() ==> final(self)@.disciplined(),
    {
        proof {
            if old(self)@.disciplined() {
                law_step_keeps_interrupt_contract(old(self)@, Event::WaitDeadlineUntil { queue, deadline, satisfied });
            }
        }
        let guard = self.enter();
        proof {
            lemma_wf_with_irq(old(self)@, false);
            assert(old(self)@.with_irq(false).with_irq(guard.prior()) =~= old(self)@);
        }
        if satisfied {
            self.leave(guard);
            WaitOutcome::Satisfied
        } else if self.now() >= deadline {
            self.leave(guard);
            WaitOutcome::TimedOut
        } else {
            self.block_and_switch(queue, Some(deadline), guard);
            WaitOutcome::Blocked
        }
    }

    /// The first round of a timed wait: the deadline is `timeout` from now.
    /// Later rounds go to `wait_deadline_until` with the deadline returned
    /// here.
    pub fn wait_timeout_until(&mut self, queue: usize, timeout: u64, satisfied: bool) -> (result: (
        WaitOutcome,
        u64,
    ))
        requires
            old(self).wf(),
            old(self)@.has_queue(queue),
        ensures
            final(self).wf(),
            final(self)@ == old(self)@.wait_timeout_until(queue, timeout, satisfied),
            result.1 == deadline_after(old(self)@.now, timeout),
            result.0 == old(self)@.wait_deadline_outcome(result.1, satisfied),
            old(self)@.disciplined() ==> final(self)@.disciplined(),
    {
        let deadline = deadline_from(self.now(), timeout);
        let outcome = self.wait_deadline_until(queue, deadline, satisfied);
        (outcome, deadline)
    }

    /// Wakes the oldest waiter of `queue`, if there is one: it goes to the
    /// tail of the ready queue. With `resched` the caller then yields. Says
    /// whether a task was woken.
    pub fn notify_one(&mut self, queue: usize, resched: bool) -> (woken: bool)
        requires
            old(self).wf(),
            old(self)@.has_queue(queue),
        ensures
            final(self).wf(),
            final(self)@ == old(self)@.notify_one(queue, resched),
            woken == (old(self)@.queues[queue as int].len() > 0),
            old(self)@.disciplined() ==> final(self)@.disciplined(),
    {
        proof {
            if old(self)@.disciplined() {
                law_step_keeps_interrupt_contract(old(self)@, Event::NotifyOne { queue, resched });
            }
        }
        let guard = self.enter();
        proof {
            lemma_wf_with_irq(old(self)@, false);
        }
        let woken = self.wake_head(queue);
        self.leave(guard);
        proof {
            lemma_wake_head_irq(old(self)@.with_irq(false), queue, guard.prior());
            assert(old(self)@.with_irq(false).with_irq(guard.prior()) =~= old(self)@);
            lemma_wf_with_irq(self@, false);
        }
        if resched {
            self.yield_now();
        }
        woken
    }

    /// Wakes every waiter of `queue`: they go to the tail of the ready queue,
    /// oldest first. With `resched` the caller then yields.
    pub fn notify_all(&mut self, queue: usize, resched: bool)
        requires
            old(self).wf(),
            old(self)@.has_queue(queue),
        ensures
            final(self).wf(),
            final(self)@ == old(self)@.notify_all(queue, resched),
            final(self)@.queues[queue as int].len() == 0,
            !resched ==> final(self)@.ready == old(self)@.ready + old(self)@.queues[queue as int],
            final(self)@.tasks.len() == old(self)@.tasks.len(),
            final(self)@.queues.len() == old(self)@.queues.len(),
            old(self)@.disciplined() ==> final(self)@.disciplined(),
    {
        let guard = self.enter();
        let ghost start = self@;
        let ghost all = start.queues[queue as int].len();
        proof {
            lemma_wf_with_irq(old(self)@, false);
        }
        let mut more = true;
        while more
            invariant
                self.wf(),
                self.masked(),
                self@.has_queue(queue),
                self@.wake_many(queue, self@.queues[queue as int].len()) == start.wake_many(
                    queue,
                    all,
                ),
                !more ==> self@.queues[queue as int].len() == 0,
            decreases self@.queues[queue as int].len() + (if more { 1nat } else { 0nat }),
        {
            proof {
                lemma_wake_all_step(self@, queue);
            }
            more = self.wake_head(queue);
        }
        proof {
            lemma_wake_all_step(self@, queue);
        }
        self.leave(guard);
        proof {
            lemma_wake_many_irq(start, queue, all, guard.prior());
            assert(start.with_irq(guard.prior()) =~= old(self)@);
            lemma_wf_with_irq(start.wake_many(queue, all), guard.prior());
        }
        if resched {
            self.yield_now();
        }
        proof {
            law_notify_all_order(old(self)@, queue);
            if old(self)@.disciplined() {
                law_step_keeps_interrupt_contract(old(self)@, Event::NotifyAll { queue, resched });
            }
        }
    }
}

} // verus!
