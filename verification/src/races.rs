//! Waiters are neither lost nor woken twice: a blocked task stays where it
//! is until a notification or its timer claims it, and whichever of the two
//! comes first leaves nothing for the other.

use vstd::prelude::*;
use crate::laws::law_single_owner;
use crate::order::{law_expiry_order, law_notify_order};
use crate::preserve::{lemma_block_current_wf, lemma_not_queued, lemma_not_ready,
    lemma_requeue_current_wf, lemma_retire_current_wf, lemma_sleep_current_wf, lemma_tick_wf,
    lemma_wake_head_wf, lemma_wake_many_wf, lemma_yield_now_wf};
use crate::state::{deadline_after, Event, State};
use crate::task::WakeReason;

verus! {

impl State {
    /// The state with the clock moved forward to `now`, before any timer
    /// fires.
    pub open spec fn at_instant(self, now: u64) -> State {
        State { now: if now > self.now { now } else { self.now }, ..self }
    }

    /// Whether `event` is a notification on `queue`.
    pub open spec fn notifies(event: Event, queue: usize) -> bool {
        match event {
            Event::NotifyOne { queue: q, .. } => q == queue,
            Event::NotifyAll { queue: q, .. } => q == queue,
            _ => false,
        }
    }

    /// Whether `event` is a tick at which the timer of `task` is due.
    pub open spec fn times_out(self, event: Event, task: usize) -> bool {
        match event {
            Event::Tick { now } => self.at_instant(now).is_due(task),
            _ => false,
        }
    }
}

/// The clock alone changes nothing that the invariant speaks of.
proof fn lemma_at_instant_wf(s: State, now: u64)
    requires
        s.wf(),
    ensures
        s.at_instant(now).wf(),
        s.tick(now) == s.at_instant(now).expire_due(),
{
    let advanced = s.at_instant(now);
    assert(advanced.tasks == s.tasks && advanced.ready == s.ready && advanced.sleepers
        == s.sleepers && advanced.queues == s.queues && advanced.current == s.current);
}

/// Handing over the processor touches no blocked task and no wait queue.
proof fn lemma_dispatch_frame(s: State, task: usize)
    requires
        s.wf(),
        s.has_task(task),
    ensures
        s.dispatch().queues == s.queues,
        s.dispatch().sleepers == s.sleepers,
        s.dispatch().tasks.len() == s.tasks.len(),
        s.dispatch().tasks[task as int].last_wake == s.tasks[task as int].last_wake,
        !(s.tasks[task as int].state is Ready) ==> s.dispatch().tasks[task as int]
            == s.tasks[task as int],
        s.tasks[task as int].state is Ready ==> s.dispatch().is_runnable(task),
{
    if s.ready.len() > 0 {
        assert(s.has_task(s.ready[0]));
    }
}

/// A yield touches no blocked task and no wait queue, and leaves a runnable
/// task runnable.
pub proof fn lemma_yield_frame(s: State, task: usize)
    requires
        s.wf(),
        s.has_task(task),
    ensures
        s.yield_now().queues == s.queues,
        s.yield_now().sleepers == s.sleepers,
        s.yield_now().tasks.len() == s.tasks.len(),
        s.yield_now().tasks[task as int].last_wake == s.tasks[task as int].last_wake,
        s.tasks[task as int].state.is_blocked() ==> s.yield_now().tasks[task as int]
            == s.tasks[task as int],
        s.is_runnable(task) ==> s.yield_now().is_runnable(task),
{
    if s.ready.len() == 0 {
    } else if s.current is Some {
        lemma_requeue_current_wf(s);
        lemma_dispatch_frame(s.requeue_current(), task);
    } else {
        lemma_dispatch_frame(s, task);
    }
}

/// The running task blocks or ends and the next one runs: no other blocked
/// task is touched, and a wait queue at most grows at its tail.
proof fn lemma_switch_frame(s: State, r: State, task: usize, queue: usize)
    requires
        s.wf(),
        r.wf(),
        s.current is Some,
        r.current is None,
        s.in_wait_queue(task, queue),
        r.tasks.len() == s.tasks.len(),
        forall|i: int|
            0 <= i < s.tasks.len() && i != s.current->0 ==> r.tasks[i] == s.tasks[i],
        r.queues.len() == s.queues.len(),
        r.queues[queue as int] == s.queues[queue as int] || r.queues[queue as int]
            == s.queues[queue as int].push(s.current->0),
    ensures
        r.dispatch().in_wait_queue(task, queue),
        r.dispatch().tasks[task as int] == s.tasks[task as int],
{
    law_single_owner(s, task);
    lemma_dispatch_frame(r, task);
    let list = s.queues[queue as int];
    let k = choose|k: int| 0 <= k < list.len() && list[k] == task;
    assert(list.push(s.current->0)[k] == task);
}

/// A waiter is not lost. A task in the block list of a wait queue stays
/// there, untouched, through every event but a notification on that queue
/// and a tick at which its own timer is due. Since `wait_until` checks and
/// enqueues in one transition, a condition that turns true after a failed
/// check finds the waiter in the queue, where the next notification reaches
/// it (`law_notify_reaches_waiters`).
pub proof fn law_waiter_stays_until_claimed(s: State, event: Event, task: usize, queue: usize)
    requires
        s.wf(),
        s.accepts(event),
        s.in_wait_queue(task, queue),
        !State::notifies(event, queue),
        !s.times_out(event, task),
    ensures
        s.step(event).in_wait_queue(task, queue),
        s.step(event).tasks[task as int] == s.tasks[task as int],
{
    law_single_owner(s, task);
    let list = s.queues[queue as int];
    match event {
        Event::Spawn { context } => {},
        Event::AddQueue => {
            assert(s.add_queue().queues[queue as int] == list);
        },
        Event::Yield => lemma_yield_frame(s, task),
        Event::Sleep { duration } => {
            let d = deadline_after(s.now, duration);
            if d <= s.now {
                lemma_yield_frame(s, task);
            } else if s.current is Some {
                lemma_sleep_current_wf(s, d);
                lemma_switch_frame(s, s.sleep_current(d), task, queue);
            }
        },
        Event::SleepUntil { deadline } => {
            if deadline <= s.now {
                lemma_yield_frame(s, task);
            } else if s.current is Some {
                lemma_sleep_current_wf(s, deadline);
                lemma_switch_frame(s, s.sleep_current(deadline), task, queue);
            }
        },
        Event::Exit => {
            if s.current is Some {
                lemma_retire_current_wf(s);
                lemma_switch_frame(s, s.retire_current(), task, queue);
            }
        },
        Event::Tick { now } => {
            lemma_at_instant_wf(s, now);
            law_expiry_order(s.at_instant(now));
        },
        Event::Wait { queue: q } => {
            if s.current is Some {
                lemma_block_current_wf(s, q, None);
                lemma_switch_frame(s, s.block_current(q, None), task, queue);
            }
        },
        Event::WaitUntil { queue: q, satisfied } => {
            if !satisfied && s.current is Some {
                lemma_block_current_wf(s, q, None);
                lemma_switch_frame(s, s.block_current(q, None), task, queue);
            }
        },
        Event::WaitDeadlineUntil { queue: q, deadline, satisfied } => {
            if !(satisfied || s.now >= deadline || s.current is None) {
                lemma_block_current_wf(s, q, Some(deadline));
                lemma_switch_frame(s, s.block_current(q, Some(deadline)), task, queue);
            }
        },
        Event::WaitTimeoutUntil { queue: q, timeout, satisfied } => {
            let deadline = deadline_after(s.now, timeout);
            if !(satisfied || s.now >= deadline || s.current is None) {
                lemma_block_current_wf(s, q, Some(deadline));
                lemma_switch_frame(s, s.block_current(q, Some(deadline)), task, queue);
            }
        },
        Event::NotifyOne { queue: q, resched } => {
            lemma_not_queued(s, task, q as int);
            if s.queues[q as int].len() > 0 {
                assert(s.queues[q as int].contains(s.queues[q as int][0]));
                lemma_wake_head_wf(s, q);
                lemma_yield_frame(s.wake_head(q), task);
            } else {
                lemma_yield_frame(s, task);
            }
        },
        Event::NotifyAll { queue: q, resched } => {
            lemma_not_queued(s, task, q as int);
            let n = s.queues[q as int].len();
            law_notify_order(s, q, n);
            assert(!s.queues[q as int].take(n as int).contains(task)) by {
                let a = s.queues[q as int].take(n as int);
                if a.contains(task) {
                    let k = choose|k: int| 0 <= k < a.len() && a[k] == task;
                    assert(s.queues[q as int][k] == task);
                }
            }
            lemma_yield_frame(s.wake_many(q, n), task);
        },
    }
}

/// A notification reaches the waiters. After `notify_one` the oldest waiter
/// of the queue is ready or running; after `notify_all` every waiter is.
pub proof fn law_notify_reaches_waiters(s: State, queue: usize, task: usize, resched: bool)
    requires
        s.wf(),
        s.in_wait_queue(task, queue),
    ensures
        s.notify_all(queue, resched).is_runnable(task),
        s.notify_all(queue, resched).tasks[task as int].last_wake == Some(WakeReason::Notified),
        task == s.queues[queue as int][0] ==> s.notify_one(queue, resched).is_runnable(task)
            && s.notify_one(queue, resched).tasks[task as int].last_wake == Some(
            WakeReason::Notified,
        ),
{
    law_single_owner(s, task);
    let list = s.queues[queue as int];
    let n = list.len();
    law_notify_order(s, queue, n);
    assert(list.take(n as int) =~= list);
    lemma_yield_frame(s.wake_many(queue, n), task);
    if task == list[0] {
        lemma_wake_head_wf(s, queue);
        lemma_yield_frame(s.wake_head(queue), task);
    }
}

/// Of a notification and a timeout, the notification came first. The
/// oldest waiter of `queue` is claimed by `notify_one`: it is woken with the
/// reason `Notified`, leaves the wait queue and loses its timer in the same
/// transition. A tick that comes after, at whatever instant, finds nothing
/// of the task to fire: the task is as the notification left it, and is not
/// woken a second time.
pub proof fn law_notify_beats_timeout(s: State, queue: usize, resched: bool, now: u64)
    requires
        s.wf(),
        s.has_queue(queue),
        s.queues[queue as int].len() > 0,
    ensures
        ({
            let task = s.queues[queue as int][0];
            let notified = s.notify_one(queue, resched);
            let ticked = notified.tick(now);
            &&& notified.wf() && ticked.wf()
            &&& notified.is_runnable(task)
            &&& notified.tasks[task as int].last_wake == Some(WakeReason::Notified)
            &&& !notified.in_sleep_queue(task)
            &&& !notified.in_some_wait_queue(task)
            &&& ticked.tasks[task as int] == notified.tasks[task as int]
            &&& !ticked.in_sleep_queue(task)
            &&& !ticked.in_some_wait_queue(task)
            &&& ticked.in_ready_queue(task) == notified.in_ready_queue(task)
        }),
{
    let task = s.queues[queue as int][0];
    let notified = s.notify_one(queue, resched);
    let ticked = notified.tick(now);
    assert(s.queues[queue as int].contains(task));
    law_single_owner(s, task);
    lemma_wake_head_wf(s, queue);
    lemma_yield_frame(s.wake_head(queue), task);
    lemma_yield_now_wf(s.wake_head(queue));
    lemma_tick_wf(notified, now);
    law_single_owner(notified, task);
    lemma_at_instant_wf(notified, now);
    law_expiry_order(notified.at_instant(now));
    law_single_owner(ticked, task);
    if notified.in_ready_queue(task) {
        assert(ticked.tasks[task as int].state is Ready);
    }
}

/// Of a notification and a timeout, the timeout came first. A tick at
/// which the timer of a timed waiter is due claims the task: it is woken
/// with the reason `TimedOut` and leaves its wait queue in the same
/// transition. A notification on that queue that comes after does not find
/// the task there and wakes it no second time.
pub proof fn law_timeout_beats_notify(s: State, queue: usize, task: usize, now: u64, resched: bool)
    requires
        s.wf(),
        s.in_wait_queue(task, queue),
        s.at_instant(now).is_due(task),
    ensures
        ({
            let ticked = s.tick(now);
            let one = ticked.notify_one(queue, resched);
            let all = ticked.notify_all(queue, resched);
            &&& ticked.wf() && one.wf() && all.wf()
            &&& ticked.tasks[task as int] == s.tasks[task as int].woken(WakeReason::TimedOut)
            &&& ticked.in_ready_queue(task)
            &&& !ticked.in_sleep_queue(task)
            &&& !ticked.in_some_wait_queue(task)
            &&& one.is_runnable(task) && all.is_runnable(task)
            &&& one.tasks[task as int].last_wake == Some(WakeReason::TimedOut)
            &&& all.tasks[task as int].last_wake == Some(WakeReason::TimedOut)
            &&& !one.in_sleep_queue(task) && !all.in_sleep_queue(task)
            &&& !one.in_some_wait_queue(task) && !all.in_some_wait_queue(task)
        }),
{
    let ticked = s.tick(now);
    let one = ticked.notify_one(queue, resched);
    let all = ticked.notify_all(queue, resched);
    law_single_owner(s, task);
    lemma_at_instant_wf(s, now);
    law_expiry_order(s.at_instant(now));
    lemma_tick_wf(s, now);
    assert(ticked.tasks[task as int].state is Ready);
    law_single_owner(ticked, task);
    assert(ticked.has_queue(queue));
    lemma_not_queued(ticked, task, queue as int);
    // notify_one
    if ticked.queues[queue as int].len() > 0 {
        assert(ticked.queues[queue as int].contains(ticked.queues[queue as int][0]));
        lemma_wake_head_wf(ticked, queue);
        lemma_yield_frame(ticked.wake_head(queue), task);
        lemma_yield_now_wf(ticked.wake_head(queue));
    } else {
        lemma_yield_frame(ticked, task);
        lemma_yield_now_wf(ticked);
    }
    law_single_owner(one, task);
    // notify_all
    let n = ticked.queues[queue as int].len();
    law_notify_order(ticked, queue, n);
    assert(!ticked.queues[queue as int].take(n as int).contains(task)) by {
        let a = ticked.queues[queue as int].take(n as int);
        if a.contains(task) {
            let k = choose|k: int| 0 <= k < a.len() && a[k] == task;
            assert(ticked.queues[queue as int][k] == task);
        }
    }
    lemma_wake_many_wf(ticked, queue, n);
    lemma_yield_frame(ticked.wake_many(queue, n), task);
    lemma_yield_now_wf(ticked.wake_many(queue, n));
    law_single_owner(all, task);
}

/// A notification that yields hands the processor over at once. When it has
/// woken a waiter, the caller stands at the tail of the ready queue, behind
/// the task that it woke, and another task runs: the head of the ready queue
/// as it was, or the woken task if nothing else was ready. The caller is on no
/// wait queue then. So whatever the caller does after the notification, a
/// wait on another queue for one, it does only after the tasks ahead of it
/// have run, and a task that it woke can notify that queue before the caller
/// waits on it.
pub proof fn law_notify_with_yield_hands_over(s: State, queue: usize)
    requires
        s.wf(),
        s.has_queue(queue),
        s.queues[queue as int].len() > 0,
        s.current is Some,
    ensures
        ({
            let caller = s.current->0;
            let woken = s.queues[queue as int][0];
            let after = s.notify_one(queue, true);
            &&& after.wf()
            &&& after.current == Some(
                if s.ready.len() > 0 {
                    s.ready[0]
                } else {
                    woken
                },
            )
            &&& after.current != Some(caller)
            &&& after.tasks[caller as int].state is Ready
            &&& after.ready.len() > 0 && after.ready.last() == caller
            &&& after.is_runnable(woken)
            &&& !after.in_some_wait_queue(caller)
        }),
{
    let caller = s.current->0;
    let woken = s.queues[queue as int][0];
    let w = s.wake_head(queue);
    let after = s.notify_one(queue, true);
    assert(s.has_task(s.queues[queue as int][0]));
    lemma_wake_head_wf(s, queue);
    lemma_yield_now_wf(w);
    lemma_requeue_current_wf(w);
    lemma_yield_frame(w, woken);
    let parked = w.requeue_current();
    assert(parked.ready[0] == w.ready[0]);
    assert(parked.has_task(parked.ready[0]));
    assert(w.ready.contains(w.ready[0]));
    lemma_not_ready(w, caller);
    law_single_owner(after, caller);
}

} // verus!
