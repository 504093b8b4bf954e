//! Sleeping and the timer tick.

use vstd::prelude::*;
use crate::executor::Executor;
use crate::laws::law_step_keeps_interrupt_contract;
use crate::order::{law_tick_order, timer_tasks};
use crate::preserve::{lemma_dispatch_irq, lemma_expire_due_irq, lemma_wf_with_irq};
use crate::state::{deadline_after, due_count, Event, State};

verus! {

/// The instant `duration` after `now`, held at the end of the clock's range.
pub fn deadline_from(now: u64, duration: u64) -> (deadline: u64)
    ensures
        deadline == deadline_after(now, duration),
{
    if duration > u64::MAX - now {
        u64::MAX
    } else {
        now + duration
    }
}

impl Executor {
    /// Puts the running task to sleep until the clock reaches `deadline`:
    /// it blocks until a tick reports an instant at or past the deadline, and
    /// the head of the ready queue runs meanwhile. A deadline that has already
    /// come is one `yield_now`, never a block.
    pub fn sleep_until(&mut self, deadline: u64)
        requires
            old(self).wf(),
        ensures
            final(self).wf(),
            final(self)@ == old(self)@.sleep_until(deadline),
            old(self)@.disciplined() ==> final(self)@.disciplined(),
    {
        proof {
            if old(self)@.disciplined() {
                law_step_keeps_interrupt_contract(old(self)@, Event::SleepUntil { deadline });
            }
        }
        if deadline <= self.now() {
            self.yield_now();
            return ;
        }
        let guard = self.enter();
        proof {
            lemma_wf_with_irq(old(self)@, false);
            assert(old(self)@.with_irq(false).with_irq(guard.prior()) =~= old(self)@);
        }
        match self.current() {
            Some(_) => {
                self.sleep_current(deadline, guard);
                proof {
                    lemma_dispatch_irq(old(self)@.sleep_current(deadline), false);
                }
                self.dispatch();
            },
            None => {
                self.leave(guard);
            },
        }
    }

    /// Puts the running task to sleep for `duration`, that is until
    /// `now + duration`. A zero duration is one `yield_now`.
    pub fn sleep(&mut self, duration: u64)
        requires
            old(self).wf(),
        ensures
            final(self).wf(),
            final(self)@ == old(self)@.sleep(duration),
            old(self)@.disciplined() ==> final(self)@.disciplined(),
    {
        let deadline = deadline_from(self.now(), duration);
        self.sleep_until(deadline);
    }

    /// The timer tick at instant `now`. The clock moves forward to `now`, and
    /// every sleeper and timed waiter whose deadline has come goes to the tail
    /// of the ready queue: in deadline order, equal deadlines in order of
    /// arrival. No task is switched away from.
    pub fn tick(&mut self, now: u64)
        requires
            old(self).wf(),
        ensures
            final(self).wf(),
            final(self)@ == old(self)@.tick(now),
            final(self)@.now == (if now > old(self)@.now {
                now
            } else {
                old(self)@.now
            }),
            final(self)@.sleepers == old(self)@.sleepers.skip(
                due_count(old(self)@.sleepers, final(self)@.now) as int,
            ),
            final(self)@.ready == old(self)@.ready + timer_tasks(
                old(self)@.sleepers.take(due_count(old(self)@.sleepers, final(self)@.now) as int),
            ),
            final(self)@.current == old(self)@.current,
            final(self)@.irq_enabled == old(self)@.irq_enabled,
            final(self)@.tasks.len() == old(self)@.tasks.len(),
            final(self)@.queues.len() == old(self)@.queues.len(),
            old(self)@.disciplined() ==> final(self)@.disciplined(),
    {
        let guard = self.enter();
        self.advance_clock(now);
        let ghost start = self@;
        proof {
            lemma_wf_with_irq(old(self)@, false);
            assert(start.tasks == old(self)@.tasks && start.ready == old(self)@.ready
                && start.sleepers == old(self)@.sleepers && start.queues == old(self)@.queues
                && start.current == old(self)@.current);
            assert(start.wf());
        }
        let mut more = true;
        while more
            invariant
                self.wf(),
                self.masked(),
                self@.expire_due() == start.expire_due(),
                !more ==> self@.expire_due() == self@,
            decreases self@.sleepers.len() + (if more { 1nat } else { 0nat }),
        {
            more = self.expire_head();
        }
        self.leave(guard);
        proof {
            lemma_expire_due_irq(start, guard.prior());
            assert(start.with_irq(guard.prior()) =~= (State {
                now: if now > old(self)@.now {
                    now
                } else {
                    old(self)@.now
                },
                ..old(self)@
            }));
            lemma_wf_with_irq(start.expire_due(), guard.prior());
        }
        proof {
            law_tick_order(old(self)@, now);
            if old(self)@.disciplined() {
                law_step_keeps_interrupt_contract(old(self)@, Event::Tick { now });
            }
        }
    }
}

} // verus!
