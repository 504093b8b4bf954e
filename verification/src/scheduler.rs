//! The scheduler: spawning, yielding and ending tasks.

use vstd::prelude::*;
use crate::executor::Executor;
use crate::laws::law_step_keeps_interrupt_contract;
use crate::preserve::{lemma_dispatch_irq, lemma_wf_with_irq};
use crate::state::Event;

verus! {

impl Executor {
    /// Creates a task whose saved execution context is `context`. The task is
    /// ready and stands at the tail of the ready queue; its identifier is
    /// returned.
    pub fn spawn(&mut self, context: u64) -> (id: usize)
        requires
            old(self).wf(),
        ensures
            final(self).wf(),
            final(self)@ == old(self)@.spawn(context),
            id == old(self)@.tasks.len(),
            old(self)@.disciplined() ==> final(self)@.disciplined(),
    {
        let guard = self.enter();
        proof {
            lemma_wf_with_irq(old(self)@, false);
        }
        let id = self.add_task(context);
        self.leave(guard);
        proof {
            assert(self@ =~= old(self)@.spawn(context));
            lemma_wf_with_irq(old(self)@.spawn(context), false);
        }
        proof {
            if old(self)@.disciplined() {
                law_step_keeps_interrupt_contract(old(self)@, Event::Spawn { context });
            }
        }
        id
    }

    /// Gives up the processor. With nothing ready this returns at once and
    /// changes nothing. Otherwise the running task goes to the tail of the
    /// ready queue and the head of the queue runs, with the interrupt flag
    /// that it was suspended with.
    pub fn yield_now(&mut self)
        requires
            old(self).wf(),
        ensures
            final(self).wf(),
            final(self)@ == old(self)@.yield_now(),
            old(self)@.disciplined() ==> final(self)@.disciplined(),
    {
        proof {
            if old(self)@.disciplined() {
                law_step_keeps_interrupt_contract(old(self)@, Event::Yield);
            }
        }
        let guard = self.enter();
        proof {
            lemma_wf_with_irq(old(self)@, false);
            assert(old(self)@.with_irq(false).with_irq(guard.prior()) =~= old(self)@);
        }
        if self.ready_len() == 0 {
            self.leave(guard);
            proof {
                assert(self@ =~= old(self)@);
            }
            return ;
        }
        match self.current() {
            Some(_) => {
                self.requeue_current(guard);
                proof {
                    lemma_dispatch_irq(old(self)@.requeue_current(), false);
                }
            },
            None => {
                let _ = guard.into_prior();
                proof {
                    lemma_dispatch_irq(old(self)@, false);
                }
            },
        }
        self.dispatch();
    }

    /// Ends the running task: it is never enqueued again, and the head of
    /// the ready queue runs.
    pub fn exit(&mut self)
        requires
            old(self).wf(),
        ensures
            final(self).wf(),
            final(self)@ == old(self)@.exit(),
            old(self)@.disciplined() ==> final(self)@.disciplined(),
    {
        proof {
            if old(self)@.disciplined() {
                law_step_keeps_interrupt_contract(old(self)@, Event::Exit);
            }
        }
        let guard = self.enter();
        proof {
            lemma_wf_with_irq(old(self)@, false);
            assert(old(self)@.with_irq(false).with_irq(guard.prior()) =~= old(self)@);
        }
        match self.current() {
            Some(_) => {
                self.retire_current(guard);
                proof {
                    lemma_dispatch_irq(old(self)@.retire_current(), false);
                }
                self.dispatch();
            },
            None => {
                self.leave(guard);
            },
        }
    }
}

} // verus!
