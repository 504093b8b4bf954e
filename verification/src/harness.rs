//! What a task does around each suspension point when it holds the
//! scheduler to the interrupt contract: it checks that interrupts are
//! enabled before the call, and after it that they are enabled and can be
//! masked. The checks are static: each round verifies only because every
//! operation of the executor keeps the interrupt contract.

use vstd::prelude::*;
use crate::executor::Executor;
use crate::state::{deadline_after, State, WaitOutcome};

verus! {

/// One round of a yielding task: check, yield, check again in the code that
/// runs next.
pub fn yield_round(executor: &mut Executor)
    requires
        old(executor).wf(),
        old(executor)@.disciplined(),
    ensures
        final(executor).wf(),
        final(executor)@.disciplined(),
        final(executor)@ == old(executor)@.yield_now(),
{
    executor.assert_irq_enabled();
    executor.yield_now();
    executor.assert_irq_enabled_and_disabled();
}

/// One round of a sleeping task: check, sleep for `duration`, check again in
/// the code that runs next.
pub fn sleep_round(executor: &mut Executor, duration: u64)
    requires
        old(executor).wf(),
        old(executor)@.disciplined(),
    ensures
        final(executor).wf(),
        final(executor)@.disciplined(),
        final(executor)@ == old(executor)@.sleep(duration),
{
    executor.assert_irq_enabled();
    executor.sleep(duration);
    executor.assert_irq_enabled_and_disabled();
}

/// The timer tick as the driver delivers it, with the check that it leaves
/// the interrupted code as it found it.
pub fn tick_round(executor: &mut Executor, now: u64)
    requires
        old(executor).wf(),
        old(executor)@.disciplined(),
    ensures
        final(executor).wf(),
        final(executor)@.disciplined(),
        final(executor)@ == old(executor)@.tick(now),
        final(executor)@.current == old(executor)@.current,
        final(executor)@.tasks.len() == old(executor)@.tasks.len(),
        final(executor)@.queues.len() == old(executor)@.queues.len(),
{
    executor.tick(now);
    executor.assert_irq_enabled_and_disabled();
}

/// One round of a task that waits on `queue` until it is notified.
pub fn wait_round(executor: &mut Executor, queue: usize)
    requires
        old(executor).wf(),
        old(executor)@.disciplined(),
        old(executor)@.has_queue(queue),
    ensures
        final(executor).wf(),
        final(executor)@.disciplined(),
        final(executor)@ == old(executor)@.wait(queue),
{
    executor.assert_irq_enabled();
    executor.wait(queue);
    executor.assert_irq_enabled_and_disabled();
}

/// One round of a task that waits on `queue` for a condition.
pub fn wait_until_round(executor: &mut Executor, queue: usize, satisfied: bool) -> (outcome:
    WaitOutcome)
    requires
        old(executor).wf(),
        old(executor)@.disciplined(),
        old(executor)@.has_queue(queue),
    ensures
        final(executor).wf(),
        final(executor)@.disciplined(),
        final(executor)@ == old(executor)@.wait_until(queue, satisfied),
        outcome == State::wait_until_outcome(satisfied),
{
    executor.assert_irq_enabled();
    let outcome = executor.wait_until(queue, satisfied);
    executor.assert_irq_enabled_and_disabled();
    outcome
}

/// The first round of a task that waits on `queue` for a condition, for
/// `timeout` at most. The deadline is returned with the outcome.
pub fn wait_timeout_round(executor: &mut Executor, queue: usize, timeout: u64, satisfied: bool)
    -> (result: (WaitOutcome, u64))
    requires
        old(executor).wf(),
        old(executor)@.disciplined(),
        old(executor)@.has_queue(queue),
    ensures
        final(executor).wf(),
        final(executor)@.disciplined(),
        final(executor)@ == old(executor)@.wait_timeout_until(queue, timeout, satisfied),
        result.1 == deadline_after(old(executor)@.now, timeout),
        result.0 == old(executor)@.wait_deadline_outcome(result.1, satisfied),
{
    executor.assert_irq_enabled();
    let result = executor.wait_timeout_until(queue, timeout, satisfied);
    executor.assert_irq_enabled_and_disabled();
    result
}

/// A later round of a timed wait, against the deadline of the first.
pub fn wait_deadline_round(executor: &mut Executor, queue: usize, deadline: u64, satisfied: bool)
    -> (outcome: WaitOutcome)
    requires
        old(executor).wf(),
        old(executor)@.disciplined(),
        old(executor)@.has_queue(queue),
    ensures
        final(executor).wf(),
        final(executor)@.disciplined(),
        final(executor)@ == old(executor)@.wait_deadline_until(queue, deadline, satisfied),
        outcome == old(executor)@.wait_deadline_outcome(deadline, satisfied),
{
    executor.assert_irq_enabled();
    let outcome = executor.wait_deadline_until(queue, deadline, satisfied);
    executor.assert_irq_enabled_and_disabled();
    outcome
}

/// A notification of one waiter, with the check after it.
pub fn notify_one_round(executor: &mut Executor, queue: usize, resched: bool) -> (woken: bool)
    requires
        old(executor).wf(),
        old(executor)@.disciplined(),
        old(executor)@.has_queue(queue),
    ensures
        final(executor).wf(),
        final(executor)@.disciplined(),
        final(executor)@ == old(executor)@.notify_one(queue, resched),
        woken == (old(executor)@.queues[queue as int].len() > 0),
{
    let woken = executor.notify_one(queue, resched);
    executor.assert_irq_enabled();
    woken
}

/// A notification of every waiter, with the check after it.
pub fn notify_all_round(executor: &mut Executor, queue: usize, resched: bool)
    requires
        old(executor).wf(),
        old(executor)@.disciplined(),
        old(executor)@.has_queue(queue),
    ensures
        final(executor).wf(),
        final(executor)@.disciplined(),
        final(executor)@ == old(executor)@.notify_all(queue, resched),
        final(executor)@.queues[queue as int].len() == 0,
        final(executor)@.tasks.len() == old(executor)@.tasks.len(),
        final(executor)@.queues.len() == old(executor)@.queues.len(),
{
    executor.notify_all(queue, resched);
    executor.assert_irq_enabled();
}

} // verus!
