//! The sleep queue: armed timers in deadline order.

use vstd::prelude::*;
use crate::lists::{lemma_arm_timer, lemma_due_count_is, lemma_remove_timer_at};
use crate::state::{arm_timer, cancel_timer, distinct_tasks, has_timer, sorted_by_deadline,
    TimerEntry};

verus! {

/// Timers ordered by deadline, equal deadlines in order of arrival, with at
/// most one timer for a task.
#[derive(Debug)]
pub struct SleepQueue {
    timers: Vec<TimerEntry>,
}

impl View for SleepQueue {
    type V = Seq<TimerEntry>;

    closed spec fn view(&self) -> Seq<TimerEntry> {
        self.timers@
    }
}

impl SleepQueue {
    /// The queue's invariant: sorted by deadline, one timer for a task.
    pub open spec fn wf(&self) -> bool {
        sorted_by_deadline(self@) && distinct_tasks(self@)
    }

    /// An empty queue.
    pub fn new() -> (queue: SleepQueue)
        ensures
            queue@ == Seq::<TimerEntry>::empty(),
            queue.wf(),
    {
        SleepQueue { timers: Vec::new() }
    }

    /// The number of armed timers.
    pub fn len(&self) -> (n: usize)
        ensures
            n == self@.len(),
    {
        self.timers.len()
    }

    /// The timer at position `index`, earliest deadline first.
    pub fn get(&self, index: usize) -> (entry: Option<TimerEntry>)
        ensures
            entry == (if index < self@.len() {
                Some(self@[index as int])
            } else {
                None
            }),
    {
        if index < self.timers.len() {
            Some(self.timers[index])
        } else {
            None
        }
    }

    /// The earliest deadline that a timer is armed for.
    pub fn next_deadline(&self) -> (deadline: Option<u64>)
        ensures
            deadline == (if self@.len() > 0 {
                Some(self@[0].deadline)
            } else {
                None
            }),
    {
        if self.timers.len() > 0 {
            Some(self.timers[0].deadline)
        } else {
            None
        }
    }

    /// Arms a timer for `task`, behind every timer that is due no later.
    pub fn arm(&mut self, deadline: u64, task: usize)
        requires
            old(self).wf(),
            !has_timer(old(self)@, task),
        ensures
            final(self).wf(),
            final(self)@ == arm_timer(old(self)@, TimerEntry { deadline, task }),
    {
        let mut i: usize = 0;
        while i < self.timers.len() && self.timers[i].deadline <= deadline
            invariant
                i <= self.timers.len(),
                self.timers@ == old(self).timers@,
                forall|j: int| 0 <= j < i ==> (#[trigger] self.timers@[j]).deadline <= deadline,
            decreases self.timers.len() - i,
        {
            i += 1;
        }
        proof {
            lemma_due_count_is(self@, deadline, i as int);
            lemma_arm_timer(self@, TimerEntry { deadline, task });
        }
        self.timers.insert(i, TimerEntry { deadline, task });
    }

    /// Takes the timer at the head if it is due at `now`.
    pub fn pop_due(&mut self, now: u64) -> (fired: Option<TimerEntry>)
        requires
            old(self).wf(),
        ensures
            final(self).wf(),
            match fired {
                Some(entry) => old(self)@.len() > 0 && entry == old(self)@[0] && entry.deadline
                    <= now && final(self)@ == old(self)@.drop_first(),
                None => (old(self)@.len() == 0 || old(self)@[0].deadline > now) && final(self)@
                    == old(self)@,
            },
    {
        if self.timers.len() > 0 && self.timers[0].deadline <= now {
            proof {
                lemma_remove_timer_at(self@, 0);
                assert(self@.drop_first() =~= self@.remove(0));
            }
            Some(self.timers.remove(0))
        } else {
            None
        }
    }

    /// Disarms the timer of `task`, and says whether it had one.
    pub fn cancel(&mut self, task: usize) -> (cancelled: bool)
        requires
            old(self).wf(),
        ensures
            final(self).wf(),
            cancelled == has_timer(old(self)@, task),
            final(self)@ == cancel_timer(old(self)@, task),
    {
        let mut i: usize = 0;
        while i < self.timers.len()
            invariant
                i <= self.timers.len(),
                self.timers@ == old(self).timers@,
                old(self).wf(),
                forall|j: int| 0 <= j < i ==> (#[trigger] self.timers@[j]).task != task,
            decreases self.timers.len() - i,
        {
            if self.timers[i].task == task {
                proof {
                    lemma_remove_timer_at(self@, i as int);
                }
                self.timers.remove(i);
                return true;
            }
            i += 1;
        }
        false
    }
}

} // verus!
