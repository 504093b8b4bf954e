//! FIFO queues of tasks: the ready queue and the block list of a wait queue.

use std::collections::VecDeque;
use vstd::prelude::*;
use crate::lists::{lemma_drop_head, lemma_push_fresh, lemma_remove_at};
use crate::state::without_task;

verus! {

/// A first-in, first-out list of task identifiers in which no task stands
/// twice.
#[derive(Debug)]
pub struct TaskQueue {
    items: VecDeque<usize>,
}

impl View for TaskQueue {
    type V = Seq<usize>;

    closed spec fn view(&self) -> Seq<usize> {
        self.items@
    }
}

impl TaskQueue {
    /// The queue's invariant: no task stands in it twice.
    pub open spec fn wf(&self) -> bool {
        self@.no_duplicates()
    }

    /// An empty queue.
    pub fn new() -> (queue: TaskQueue)
        ensures
            queue@ == Seq::<usize>::empty(),
            queue.wf(),
    {
        TaskQueue { items: VecDeque::new() }
    }

    /// The number of tasks in the queue.
    pub fn len(&self) -> (n: usize)
        ensures
            n == self@.len(),
    {
        self.items.len()
    }

    /// Whether the queue holds no task.
    pub fn is_empty(&self) -> (empty: bool)
        ensures
            empty == (self@.len() == 0),
    {
        self.items.len() == 0
    }

    /// The task at the head, which has been in the queue longest.
    pub fn front(&self) -> (head: Option<usize>)
        ensures
            head == (if self@.len() > 0 {
                Some(self@[0])
            } else {
                None
            }),
    {
        if self.items.len() > 0 {
            Some(self.items[0])
        } else {
            None
        }
    }

    /// The task at position `index`, counted from the head.
    pub fn get(&self, index: usize) -> (task: Option<usize>)
        ensures
            task == (if index < self@.len() {
                Some(self@[index as int])
            } else {
                None
            }),
    {
        if index < self.items.len() {
            Some(self.items[index])
        } else {
            None
        }
    }

    /// Whether `task` stands in the queue.
    pub fn contains(&self, task: usize) -> (found: bool)
        ensures
            found == self@.contains(task),
    {
        let mut i: usize = 0;
        while i < self.items.len()
            invariant
                i <= self.items.len(),
                forall|j: int| 0 <= j < i ==> self.items@[j] != task,
            decreases self.items.len() - i,
        {
            if self.items[i] == task {
                return true;
            }
            i += 1;
        }
        false
    }

    /// Puts `task` at the tail.
    pub fn push_back(&mut self, task: usize)
        requires
            old(self).wf(),
            !old(self)@.contains(task),
        ensures
            final(self)@ == old(self)@.push(task),
            final(self).wf(),
    {
        proof {
            lemma_push_fresh(self@, task);
        }
        self.items.push_back(task);
    }

    /// Takes the task at the head, if there is one.
    pub fn pop_front(&mut self) -> (head: Option<usize>)
        requires
            old(self).wf(),
        ensures
            final(self).wf(),
            match head {
                Some(task) => old(self)@.len() > 0 && task == old(self)@[0] && final(self)@ == old(
                    self,
                )@.drop_first(),
                None => old(self)@.len() == 0 && final(self)@ == old(self)@,
            },
    {
        if self.items.len() == 0 {
            None
        } else {
            proof {
                lemma_drop_head(self@);
                assert(self@.subrange(1, self@.len() as int) =~= self@.drop_first());
            }
            self.items.pop_front()
        }
    }

    /// Takes `task` out of the queue, wherever it stands, and says whether it
    /// was there. The order of the others is kept.
    pub fn remove(&mut self, task: usize) -> (removed: bool)
        requires
            old(self).wf(),
        ensures
            final(self).wf(),
            removed == old(self)@.contains(task),
            final(self)@ == without_task(old(self)@, task),
    {
        let mut i: usize = 0;
        while i < self.items.len()
            invariant
                i <= self.items.len(),
                self.items@ == old(self).items@,
                old(self).wf(),
                forall|j: int| 0 <= j < i ==> self.items@[j] != task,
            decreases self.items.len() - i,
        {
            if self.items[i] == task {
                proof {
                    lemma_remove_at(self@, i as int);
                }
                self.items.remove(i);
                return true;
            }
            i += 1;
        }
        false
    }
}

} // verus!
