//! The order in which tasks are woken: ticks wake by deadline, notifications
//! wake the oldest waiter first.

use vstd::prelude::*;
use crate::lists::{lemma_drop_head, lemma_due_count, lemma_due_count_sorted, lemma_remove_at,
    lemma_remove_timer_at};
use crate::preserve::{lemma_expire_head_wf, lemma_not_queued, lemma_notify_all_wf,
    lemma_notify_one_wf, lemma_wake_head_wf, lemma_yield_now_wf};
use crate::races::lemma_yield_frame;
use crate::state::{due_count, has_timer, timer_index, State, TimerEntry};
use crate::task::{TaskState, WakeReason};

verus! {

/// The tasks that the timers in `timers` are armed for, in queue order.
pub open spec fn timer_tasks(timers: Seq<TimerEntry>) -> Seq<usize> {
    timers.map_values(|entry: TimerEntry| entry.task)
}

impl State {
    /// Whether a tick at the present instant wakes `task`: it is blocked with
    /// a deadline that has come.
    pub open spec fn is_due(self, task: usize) -> bool {
        self.has_task(task) && (self.tasks[task as int].state.deadline() matches Some(d) && d
            <= self.now)
    }

    /// `times` calls of `yield_now` in a row.
    pub open spec fn yield_times(self, times: nat) -> State
        decreases times,
    {
        if times == 0 {
            self
        } else {
            self.yield_now().yield_times((times - 1) as nat)
        }
    }

    /// One call of `notify_one` on `queue` for each of `flags`, in a row, the
    /// call with that value of `resched`. After a call that yields the next
    /// call is made by the task that runs then.
    pub open spec fn notify_one_run(self, queue: usize, flags: Seq<bool>) -> State
        decreases flags.len(),
    {
        if flags.len() == 0 {
            self
        } else {
            self.notify_one(queue, flags[0]).notify_one_run(queue, flags.drop_first())
        }
    }

    /// `times` calls of `notify_one` on `queue` in a row, none of them
    /// yielding.
    pub open spec fn notify_one_times(self, queue: usize, times: nat) -> State
        decreases times,
    {
        if times == 0 {
            self
        } else {
            self.notify_one(queue, false).notify_one_times(queue, (times - 1) as nat)
        }
    }
}

/// In a sorted sleep queue the timers that are due are exactly those of the
/// due tasks, and they stand before `due_count`.
proof fn lemma_due_is_prefix(s: State, task: usize)
    requires
        s.wf(),
        has_timer(s.sleepers, task),
    ensures
        s.is_due(task) <==> timer_index(s.sleepers, task) < due_count(s.sleepers, s.now),
{
    let k = timer_index(s.sleepers, task);
    assert(s.has_task(s.sleepers[k].task));
    lemma_due_count(s.sleepers, s.now);
    lemma_due_count_sorted(s.sleepers, s.now);
}

/// What firing every due timer comes to. With `k` the number of due timers:
/// the first `k` tasks of the sleep queue go to the tail of the ready queue
/// in queue order, which is deadline order with equal deadlines in order of
/// arrival; the sleep queue keeps the rest, none of which is due; each woken
/// task is ready with the reason `TimedOut` and stands in no wait queue; no
/// other task changes and no other waiter moves.
pub proof fn law_expiry_order(s: State)
    requires
        s.wf(),
    ensures
        s.expire_due().wf(),
        s.expire_due().sleepers == s.sleepers.skip(due_count(s.sleepers, s.now) as int),
        s.expire_due().ready == s.ready + timer_tasks(
            s.sleepers.take(due_count(s.sleepers, s.now) as int),
        ),
        forall|k: int|
            0 <= k < s.expire_due().sleepers.len() ==> (#[trigger] s.expire_due().sleepers[k]).deadline
                > s.now,
        s.expire_due().tasks.len() == s.tasks.len(),
        forall|t: usize|
            s.has_task(t) ==> #[trigger] s.expire_due().tasks[t as int] == (if s.is_due(t) {
                s.tasks[t as int].woken(WakeReason::TimedOut)
            } else {
                s.tasks[t as int]
            }),
        s.expire_due().queues.len() == s.queues.len(),
        forall|q: int, x: usize|
            0 <= q < s.queues.len() ==> (#[trigger] s.expire_due().queues[q].contains(x) <==> (
            s.queues[q].contains(x) && !s.is_due(x))),
        s.expire_due().current == s.current,
        s.expire_due().irq_enabled == s.irq_enabled,
        s.expire_due().now == s.now,
    decreases s.sleepers.len(),
{
    let n = due_count(s.sleepers, s.now) as int;
    let r = s.expire_due();
    lemma_due_count(s.sleepers, s.now);
    lemma_due_count_sorted(s.sleepers, s.now);
    if s.sleepers.len() > 0 && s.sleepers[0].deadline <= s.now {
        let head = s.sleepers[0].task;
        let s1 = s.expire_head();
        assert(s.has_task(s.sleepers[0].task));
        lemma_expire_head_wf(s);
        law_expiry_order(s1);
        let m = due_count(s1.sleepers, s1.now) as int;
        assert(n == m + 1);
        assert(r.sleepers =~= s.sleepers.skip(n));
        assert(r.ready =~= s.ready + timer_tasks(s.sleepers.take(n))) by {
            let a = s1.ready + timer_tasks(s1.sleepers.take(m));
            let b = s.ready + timer_tasks(s.sleepers.take(n));
            assert(a.len() == b.len());
            assert forall|i: int| 0 <= i < a.len() implies a[i] == b[i] by {
                if i > s.ready.len() {
                    let j = i - s.ready.len();
                    assert(s1.sleepers.take(m)[j - 1] == s.sleepers.take(n)[j]);
                }
            }
        }
        lemma_remove_timer_at(s.sleepers, 0);
        assert(s.sleepers.drop_first() =~= s.sleepers.remove(0));
        assert(!has_timer(s1.sleepers, head));
        assert forall|t: usize| s.has_task(t) implies #[trigger] r.tasks[t as int] == (if s.is_due(
            t,
        ) {
            s.tasks[t as int].woken(WakeReason::TimedOut)
        } else {
            s.tasks[t as int]
        }) by {
            if t == head {
                assert(s.is_due(t));
                assert(!s1.is_due(t));
            } else {
                assert(s1.tasks[t as int] == s.tasks[t as int]);
                assert(s1.is_due(t) == s.is_due(t));
            }
        }
        assert forall|q: int, x: usize| 0 <= q < s.queues.len() implies (
        #[trigger] r.queues[q].contains(x) <==> (s.queues[q].contains(x) && !s.is_due(x))) by {
            lemma_expiry_queue_step(s, q, x);
            if x == head {
                assert(!s1.queues[q].contains(x));
            } else if s.queues[q].contains(x) {
                let k = choose|k: int| 0 <= k < s.queues[q].len() && s.queues[q][k] == x;
                assert(s.has_task(s.queues[q][k]));
                assert(s1.tasks[x as int] == s.tasks[x as int]);
                assert(s1.is_due(x) == s.is_due(x));
            }
        }
    } else {
        assert(n == 0);
        assert(r.sleepers =~= s.sleepers.skip(0));
        assert(r.ready =~= s.ready + timer_tasks(s.sleepers.take(0)));
        assert forall|t: usize| s.has_task(t) implies !s.is_due(t) by {
            if s.tasks[t as int].state.deadline() is Some {
                assert(has_timer(s.sleepers, t));
                lemma_due_is_prefix(s, t);
            }
        }
    }
}

/// What one firing timer does to a wait queue: the task of the timer leaves
/// it, every other waiter stays.
proof fn lemma_expiry_queue_step(s: State, q: int, x: usize)
    requires
        s.wf(),
        s.sleepers.len() > 0,
        0 <= q < s.queues.len(),
    ensures
        s.expire_head().queues.len() == s.queues.len(),
        s.expire_head().queues[q].contains(x) <==> (s.queues[q].contains(x) && x
            != s.sleepers[0].task),
{
    let head = s.sleepers[0].task;
    assert(s.has_task(s.sleepers[0].task));
    match s.tasks[head as int].state {
        TaskState::Waiting { queue, .. } => {
            assert(s.has_queue(queue));
            let list = s.queues[queue as int];
            assert(list.contains(head));
            let j = choose|j: int| 0 <= j < list.len() && list[j] == head;
            lemma_remove_at(list, j);
            if q != queue {
                lemma_not_queued(s, head, q);
            }
        },
        _ => {
            lemma_not_queued(s, head, q);
        },
    }
}

/// A tick wakes by deadline: the clock moves forward to the later of its
/// instant and `now`, and then `law_expiry_order` says what is woken and in
/// which order.
pub proof fn law_tick_order(s: State, now: u64)
    requires
        s.wf(),
    ensures
        s.tick(now).now == (if now > s.now {
            now
        } else {
            s.now
        }),
        s.tick(now).sleepers == s.sleepers.skip(due_count(s.sleepers, s.tick(now).now) as int),
        s.tick(now).ready == s.ready + timer_tasks(
            s.sleepers.take(due_count(s.sleepers, s.tick(now).now) as int),
        ),
        forall|k: int|
            0 <= k < s.tick(now).sleepers.len() ==> (#[trigger] s.tick(now).sleepers[k]).deadline
                > s.tick(now).now,
        s.tick(now).current == s.current,
        s.tick(now).irq_enabled == s.irq_enabled,
        s.tick(now).tasks.len() == s.tasks.len(),
        s.tick(now).queues.len() == s.queues.len(),
{
    let advanced = State { now: if now > s.now { now } else { s.now }, ..s };
    assert(advanced.tasks == s.tasks && advanced.ready == s.ready && advanced.sleepers
        == s.sleepers && advanced.queues == s.queues && advanced.current == s.current);
    assert(advanced.wf());
    law_expiry_order(advanced);
}

/// What notifying the `count` oldest waiters of `queue` comes to: they go
/// to the tail of the ready queue in the order in which they blocked; the
/// wait queue keeps the rest; each woken task is ready with the reason
/// `Notified` and has no timer; nothing else changes.
pub proof fn law_notify_order(s: State, queue: usize, count: nat)
    requires
        s.wf(),
        s.has_queue(queue),
        count <= s.queues[queue as int].len(),
    ensures
        s.wake_many(queue, count).wf(),
        s.wake_many(queue, count).ready == s.ready + s.queues[queue as int].take(count as int),
        s.wake_many(queue, count).queues == s.queues.update(
            queue as int,
            s.queues[queue as int].skip(count as int),
        ),
        s.wake_many(queue, count).tasks.len() == s.tasks.len(),
        forall|t: usize|
            s.has_task(t) ==> #[trigger] s.wake_many(queue, count).tasks[t as int] == (
            if s.queues[queue as int].take(count as int).contains(t) {
                s.tasks[t as int].woken(WakeReason::Notified)
            } else {
                s.tasks[t as int]
            }),
        forall|t: usize| #[trigger]
            has_timer(s.wake_many(queue, count).sleepers, t) <==> (has_timer(s.sleepers, t)
                && !s.queues[queue as int].take(count as int).contains(t)),
        s.wake_many(queue, count).current == s.current,
        s.wake_many(queue, count).irq_enabled == s.irq_enabled,
        s.wake_many(queue, count).now == s.now,
    decreases count,
{
    let list = s.queues[queue as int];
    let r = s.wake_many(queue, count);
    if count == 0 {
        assert(list.skip(0) =~= list);
        assert(r.queues =~= s.queues.update(queue as int, list.skip(0)));
        assert(r.ready =~= s.ready + list.take(0));
    } else {
        let head = list[0];
        let s1 = s.wake_head(queue);
        let rest = list.drop_first();
        let m = (count - 1) as nat;
        assert(s.has_task(s.queues[queue as int][0]));
        lemma_wake_head_wf(s, queue);
        lemma_drop_head(list);
        law_notify_order(s1, queue, m);
        assert(s1.queues[queue as int] == rest);
        assert(r.ready =~= s.ready + list.take(count as int)) by {
            let a = s1.ready + rest.take(m as int);
            let b = s.ready + list.take(count as int);
            assert(a.len() == b.len());
            assert forall|i: int| 0 <= i < a.len() implies a[i] == b[i] by {
                if i > s.ready.len() {
                    let j = i - s.ready.len();
                    assert(rest.take(m as int)[j - 1] == list.take(count as int)[j]);
                }
            }
        }
        assert(rest.skip(m as int) =~= list.skip(count as int));
        assert(r.queues =~= s.queues.update(queue as int, list.skip(count as int)));
        assert forall|t: usize|
            list.take(count as int).contains(t) <==> (t == head || rest.take(m as int).contains(
                t,
            )) by {
            let a = list.take(count as int);
            let b = rest.take(m as int);
            if a.contains(t) {
                let k = choose|k: int| 0 <= k < a.len() && a[k] == t;
                if k > 0 {
                    assert(b[k - 1] == t);
                }
            }
            if b.contains(t) {
                let k = choose|k: int| 0 <= k < b.len() && b[k] == t;
                assert(a[k + 1] == t);
            }
            if t == head {
                assert(a[0] == t);
            }
        }
        assert(!rest.take(m as int).contains(head)) by {
            let b = rest.take(m as int);
            if b.contains(head) {
                let k = choose|k: int| 0 <= k < b.len() && b[k] == head;
                assert(rest[k] == head);
                assert(rest.contains(head));
            }
        }
        assert forall|t: usize| #[trigger]
            has_timer(s1.sleepers, t) <==> (has_timer(s.sleepers, t) && t != head) by {
            if has_timer(s.sleepers, head) {
                lemma_remove_timer_at(s.sleepers, timer_index(s.sleepers, head));
            }
        }
        assert forall|t: usize| s.has_task(t) implies #[trigger] r.tasks[t as int] == (
        if list.take(count as int).contains(t) {
            s.tasks[t as int].woken(WakeReason::Notified)
        } else {
            s.tasks[t as int]
        }) by {
            assert(s1.has_task(t));
        }
        assert forall|t: usize| #[trigger]
            has_timer(r.sleepers, t) <==> (has_timer(s.sleepers, t) && !list.take(
                count as int,
            ).contains(t)) by {
            assert(has_timer(r.sleepers, t) <==> (has_timer(s1.sleepers, t) && !rest.take(
                m as int,
            ).contains(t)));
        }
    }
}

/// Calling `notify_one` again and again is notifying that many waiters.
pub proof fn lemma_notify_one_times(s: State, queue: usize, times: nat)
    requires
        s.has_queue(queue),
    ensures
        s.notify_one_times(queue, times) == s.wake_many(queue, times),
    decreases times,
{
    if times > 0 {
        if s.queues[queue as int].len() > 0 {
            assert(s.wake_head(queue).has_queue(queue));
            lemma_notify_one_times(s.wake_head(queue), queue, (times - 1) as nat);
        } else {
            lemma_notify_one_times(s, queue, (times - 1) as nat);
            assert(s.wake_many(queue, (times - 1) as nat) == s);
        }
    }
}

/// A wait queue is fair. A task that waits joins the tail of the block list
/// (`law_wait_joins_tail`), and `times` calls of `notify_one` in a row wake
/// the `times` oldest waiters in the order in which they blocked: the ready
/// queue grows by exactly them, oldest first, and the wait queue keeps the
/// younger ones.
pub proof fn law_fifo_wake_order(s: State, queue: usize, times: nat)
    requires
        s.wf(),
        s.has_queue(queue),
        times <= s.queues[queue as int].len(),
    ensures
        s.notify_one_times(queue, times).ready == s.ready + s.queues[queue as int].take(
            times as int,
        ),
        s.notify_one_times(queue, times).queues[queue as int] == s.queues[queue as int].skip(
            times as int,
        ),
        forall|k: int|
            0 <= k < times ==> s.notify_one_times(queue, times).tasks[(
            #[trigger] s.queues[queue as int][k]) as int].state is Ready,
{
    lemma_notify_one_times(s, queue, times);
    law_notify_order(s, queue, times);
    let list = s.queues[queue as int];
    assert forall|k: int| 0 <= k < times implies s.notify_one_times(queue, times).tasks[(
    #[trigger] list[k]) as int].state is Ready by {
        assert(s.has_task(s.queues[queue as int][k]));
        assert(list.take(times as int)[k] == list[k]);
        assert(list.take(times as int).contains(list[k]));
    }
}

/// A task that waits joins the tail of the block list, whichever kind of
/// wait it is.
pub proof fn law_wait_joins_tail(s: State, queue: usize, deadline: u64)
    requires
        s.wf(),
        s.has_queue(queue),
        s.current is Some,
    ensures
        s.wait(queue).queues[queue as int] == s.queues[queue as int].push(s.current->0),
        s.wait_until(queue, false).queues[queue as int] == s.queues[queue as int].push(
            s.current->0,
        ),
        s.now < deadline ==> s.wait_deadline_until(queue, deadline, false).queues[queue as int]
            == s.queues[queue as int].push(s.current->0),
{
}

/// `notify_all` wakes every waiter in the order in which they blocked and
/// leaves the wait queue empty.
pub proof fn law_notify_all_order(s: State, queue: usize)
    requires
        s.wf(),
        s.has_queue(queue),
    ensures
        s.notify_all(queue, false).ready == s.ready + s.queues[queue as int],
        s.notify_all(queue, false).queues[queue as int].len() == 0,
        forall|resched: bool|
            (#[trigger] s.notify_all(queue, resched)).queues[queue as int].len() == 0,
        forall|resched: bool|
            (#[trigger] s.notify_all(queue, resched)).queues.len() == s.queues.len(),
        forall|resched: bool|
            (#[trigger] s.notify_all(queue, resched)).tasks.len() == s.tasks.len(),
{
    let list = s.queues[queue as int];
    law_notify_order(s, queue, list.len());
    assert(list.take(list.len() as int) =~= list);
}

/// A sleep that has nothing to wait for is a single hand-off: `sleep(0)`
/// and `sleep_until` with a deadline that has come are each exactly one
/// `yield_now`, so the caller is never blocked by them.
pub proof fn law_sleep_zero_is_yield(s: State, deadline: u64)
    ensures
        s.sleep(0) == s.yield_now(),
        deadline <= s.now ==> s.sleep_until(deadline) == s.yield_now(),
{
}

/// The ready queue is first in, first out. With something ready, a yield
/// runs the head of the ready queue and puts the caller at the tail; with
/// nothing ready it changes nothing.
pub proof fn law_ready_queue_is_fifo(s: State)
    requires
        s.wf(),
    ensures
        s.ready.len() == 0 ==> s.yield_now() == s,
        s.ready.len() > 0 ==> s.yield_now().current == Some(s.ready[0]),
        s.ready.len() > 0 && s.current is Some ==> s.yield_now().ready
            == s.ready.drop_first().push(s.current->0),
        s.ready.len() > 0 && s.current is None ==> s.yield_now().ready == s.ready.drop_first(),
        forall|context: u64| (#[trigger] s.spawn(context)).ready == s.ready.push(
            s.tasks.len() as usize,
        ),
{
    if s.ready.len() > 0 && s.current is Some {
        assert(s.yield_now().ready =~= s.ready.drop_first().push(s.current->0));
    }
}

/// A sleeper wakes at its deadline and not before: after a tick, a task that
/// slept until `deadline` is ready exactly if the clock has reached the
/// deadline; otherwise it sleeps on, untouched.
pub proof fn law_sleeper_wakes_on_time(s: State, task: usize, now: u64)
    requires
        s.wf(),
        s.has_task(task),
        s.tasks[task as int].state is Sleeping,
    ensures
        ({
            let deadline = s.tasks[task as int].state->until;
            let clock = if now > s.now {
                now
            } else {
                s.now
            };
            &&& deadline <= clock ==> s.tick(now).tasks[task as int] == s.tasks[task as int].woken(
                WakeReason::TimedOut,
            ) && s.tick(now).ready.contains(task)
            &&& deadline > clock ==> s.tick(now).tasks[task as int] == s.tasks[task as int]
        }),
{
    let advanced = State { now: if now > s.now { now } else { s.now }, ..s };
    assert(advanced.tasks == s.tasks && advanced.ready == s.ready && advanced.sleepers
        == s.sleepers && advanced.queues == s.queues && advanced.current == s.current);
    assert(advanced.wf());
    law_expiry_order(advanced);
    let r = s.tick(now);
    if r.tasks[task as int].state is Ready {
        assert(r.ready.contains(task));
    }
}

/// Waiting in the ready queue is bounded. A task at position `k` of the
/// ready queue runs after `k + 1` yields, whoever makes them: nobody
/// overtakes it.
pub proof fn law_ready_task_runs_in_turn(s: State, k: nat)
    requires
        s.wf(),
        k < s.ready.len(),
    ensures
        s.yield_times(k + 1).current == Some(s.ready[k as int]),
        s.yield_times(k + 1).wf(),
    decreases k,
{
    let next = s.yield_now();
    lemma_yield_now_wf(s);
    law_ready_queue_is_fifo(s);
    if k == 0 {
        assert(s.yield_times(1) == next.yield_times(0));
    } else {
        assert(next.ready[(k - 1) as int] == s.ready[k as int]);
        law_ready_task_runs_in_turn(next, (k - 1) as nat);
    }
}

/// Asking a notification for a yield changes when the woken tasks run, not
/// which tasks are woken: with `resched` a notification is the same
/// notification without it, followed by one `yield_now`; the wait queues, the
/// sleep queue and the reason recorded with every task are the same either
/// way.
pub proof fn law_resched_is_a_yield(s: State, queue: usize, task: usize)
    requires
        s.wf(),
        s.has_queue(queue),
        s.has_task(task),
    ensures
        s.notify_one(queue, true) == s.notify_one(queue, false).yield_now(),
        s.notify_all(queue, true) == s.notify_all(queue, false).yield_now(),
        s.notify_one(queue, true).queues == s.notify_one(queue, false).queues,
        s.notify_one(queue, true).sleepers == s.notify_one(queue, false).sleepers,
        s.notify_one(queue, true).tasks[task as int].last_wake == s.notify_one(
            queue,
            false,
        ).tasks[task as int].last_wake,
        s.notify_all(queue, true).queues == s.notify_all(queue, false).queues,
        s.notify_all(queue, true).sleepers == s.notify_all(queue, false).sleepers,
        s.notify_all(queue, true).tasks[task as int].last_wake == s.notify_all(
            queue,
            false,
        ).tasks[task as int].last_wake,
{
    let one = s.notify_one(queue, false);
    let all = s.notify_all(queue, false);
    lemma_notify_one_wf(s, queue, false);
    lemma_notify_all_wf(s, queue, false);
    law_notify_order(s, queue, s.queues[queue as int].len());
    lemma_yield_frame(one, task);
    lemma_yield_frame(all, task);
}

/// What one `notify_one` does, whether it yields or not: the wait queue
/// loses its head, which is ready or running afterwards with the reason
/// `Notified`; a task that could run still can; a blocked task other than the
/// head is untouched.
proof fn lemma_notify_one_step(s: State, queue: usize, resched: bool, task: usize)
    requires
        s.wf(),
        s.has_queue(queue),
        s.has_task(task),
    ensures
        s.notify_one(queue, resched).wf(),
        s.notify_one(queue, resched).has_queue(queue),
        s.notify_one(queue, resched).tasks.len() == s.tasks.len(),
        s.notify_one(queue, resched).queues[queue as int] == (if s.queues[queue as int].len()
            > 0 {
            s.queues[queue as int].drop_first()
        } else {
            s.queues[queue as int]
        }),
        s.queues[queue as int].len() > 0 && task == s.queues[queue as int][0] ==> s.notify_one(
            queue,
            resched,
        ).is_runnable(task) && s.notify_one(queue, resched).tasks[task as int].last_wake == Some(
            WakeReason::Notified,
        ),
        s.is_runnable(task) ==> s.notify_one(queue, resched).is_runnable(task) && s.notify_one(
            queue,
            resched,
        ).tasks[task as int].last_wake == s.tasks[task as int].last_wake,
        s.tasks[task as int].state.is_blocked() && !(s.queues[queue as int].len() > 0 && task
            == s.queues[queue as int][0]) ==> s.notify_one(queue, resched).tasks[task as int]
            == s.tasks[task as int],
{
    lemma_notify_one_wf(s, queue, resched);
    if s.queues[queue as int].len() > 0 {
        let w = s.wake_head(queue);
        assert(s.has_task(s.queues[queue as int][0]));
        lemma_wake_head_wf(s, queue);
        lemma_yield_frame(w, task);
    } else {
        lemma_yield_frame(s, task);
    }
}

/// A run of notifications takes as many waiters off the head of the wait
/// queue as it has calls.
proof fn lemma_notify_run_queue(s: State, queue: usize, flags: Seq<bool>)
    requires
        s.wf(),
        s.has_queue(queue),
        flags.len() <= s.queues[queue as int].len(),
    ensures
        s.notify_one_run(queue, flags).wf(),
        s.notify_one_run(queue, flags).has_queue(queue),
        s.notify_one_run(queue, flags).tasks.len() == s.tasks.len(),
        s.notify_one_run(queue, flags).queues[queue as int] == s.queues[queue as int].skip(
            flags.len() as int,
        ),
    decreases flags.len(),
{
    let list = s.queues[queue as int];
    if flags.len() == 0 {
        assert(list.skip(0) =~= list);
    } else {
        let next = s.notify_one(queue, flags[0]);
        assert(s.has_task(s.queues[queue as int][0]));
        lemma_notify_one_step(s, queue, flags[0], list[0]);
        lemma_notify_run_queue(next, queue, flags.drop_first());
        assert(list.drop_first().skip(flags.len() - 1) =~= list.skip(flags.len() as int));
    }
}

/// A task that can run can still run after any run of notifications, and
/// the reason of its last wake is the same.
proof fn lemma_notify_run_keeps_runnable(s: State, queue: usize, flags: Seq<bool>, task: usize)
    requires
        s.wf(),
        s.has_queue(queue),
        s.is_runnable(task),
    ensures
        s.notify_one_run(queue, flags).is_runnable(task),
        s.notify_one_run(queue, flags).tasks[task as int].last_wake
            == s.tasks[task as int].last_wake,
    decreases flags.len(),
{
    if flags.len() > 0 {
        lemma_notify_one_step(s, queue, flags[0], task);
        lemma_notify_run_keeps_runnable(
            s.notify_one(queue, flags[0]),
            queue,
            flags.drop_first(),
            task,
        );
    }
}

/// A wait queue is fair, whether its notifications yield or not. After a run
/// of `notify_one` calls, each with any value of `resched`, the wait queue has
/// lost as many waiters from its head as there were calls; each of them is
/// ready or running, woken with the reason `Notified`; every younger waiter
/// still waits, untouched. Since this holds after each call of the run, the
/// calls wake the waiters one by one in the order in which they blocked.
pub proof fn law_fifo_wake_order_any_flag(s: State, queue: usize, flags: Seq<bool>, k: int)
    requires
        s.wf(),
        s.has_queue(queue),
        flags.len() <= s.queues[queue as int].len(),
        0 <= k < s.queues[queue as int].len(),
    ensures
        s.notify_one_run(queue, flags).wf(),
        s.notify_one_run(queue, flags).queues[queue as int] == s.queues[queue as int].skip(
            flags.len() as int,
        ),
        k < flags.len() ==> s.notify_one_run(queue, flags).is_runnable(s.queues[queue as int][k])
            && s.notify_one_run(queue, flags).tasks[s.queues[queue as int][k] as int].last_wake
            == Some(WakeReason::Notified),
        k >= flags.len() ==> s.notify_one_run(queue, flags).tasks[s.queues[queue as int][k] as int]
            == s.tasks[s.queues[queue as int][k] as int],
    decreases flags.len(),
{
    let list = s.queues[queue as int];
    let task = list[k];
    lemma_notify_run_queue(s, queue, flags);
    assert(s.has_task(s.queues[queue as int][k]));
    if flags.len() > 0 {
        let next = s.notify_one(queue, flags[0]);
        let rest = flags.drop_first();
        lemma_notify_one_step(s, queue, flags[0], task);
        if k == 0 {
            lemma_notify_run_keeps_runnable(next, queue, rest, task);
        } else {
            assert(list[k] != list[0]);
            assert(next.queues[queue as int][k - 1] == task);
            law_fifo_wake_order_any_flag(next, queue, rest, k - 1);
        }
    }
}

} // verus!
