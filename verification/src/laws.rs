//! What holds of the executor in every state it can reach, and how its
//! operations relate to each other.

use vstd::prelude::*;
use crate::order::{law_expiry_order, law_notify_order, law_tick_order};
use crate::preserve::{lemma_add_queue_wf, lemma_block_current_wf, lemma_boot_wf,
    lemma_exit_wf, lemma_expire_head_wf, lemma_no_timer, lemma_not_ready, lemma_notify_all_wf,
    lemma_notify_one_wf, lemma_requeue_current_wf, lemma_retire_current_wf,
    lemma_sleep_current_wf, lemma_sleep_until_wf, lemma_spawn_wf, lemma_tick_wf,
    lemma_wait_deadline_until_wf, lemma_wait_wf, lemma_wake_head_wf, lemma_wake_many_wf,
    lemma_yield_now_wf};
use crate::state::{deadline_after, timer_index, Event, State};
use crate::task::{may_become, TaskState};

verus! {

// ----- the invariant holds in every reachable state -----

/// The executor comes up in a state that meets the invariant and the
/// interrupt contract.
pub proof fn law_boot_is_sound(context: u64)
    ensures
        State::boot(context).wf(),
        State::boot(context).disciplined(),
{
    lemma_boot_wf(context);
}

/// Every event that a state accepts leads from a state that meets the
/// invariant to one that meets it.
pub proof fn law_step_keeps_invariant(s: State, event: Event)
    requires
        s.wf(),
        s.accepts(event),
    ensures
        s.step(event).wf(),
{
    match event {
        Event::Spawn { context } => lemma_spawn_wf(s, context),
        Event::AddQueue => lemma_add_queue_wf(s),
        Event::Yield => lemma_yield_now_wf(s),
        Event::Sleep { duration } => lemma_sleep_until_wf(s, deadline_after(s.now, duration)),
        Event::SleepUntil { deadline } => lemma_sleep_until_wf(s, deadline),
        Event::Exit => lemma_exit_wf(s),
        Event::Tick { now } => lemma_tick_wf(s, now),
        Event::Wait { queue } => lemma_wait_wf(s, queue),
        Event::WaitUntil { queue, satisfied } => {
            if !satisfied {
                lemma_wait_wf(s, queue);
            }
        },
        Event::WaitDeadlineUntil { queue, deadline, satisfied } => lemma_wait_deadline_until_wf(
            s,
            queue,
            deadline,
            satisfied,
        ),
        Event::WaitTimeoutUntil { queue, timeout, satisfied } => lemma_wait_deadline_until_wf(
            s,
            queue,
            deadline_after(s.now, timeout),
            satisfied,
        ),
        Event::NotifyOne { queue, resched } => lemma_notify_one_wf(s, queue, resched),
        Event::NotifyAll { queue, resched } => lemma_notify_all_wf(s, queue, resched),
    }
}

/// At all times: whatever happens to an executor after it has come up, in
/// whatever order, it is in a state that meets the invariant and the
/// interrupt contract.
pub proof fn law_always_sound(context: u64, events: Seq<Event>)
    requires
        State::boot(context).accepts_all(events),
    ensures
        State::boot(context).run(events).wf(),
        State::boot(context).run(events).disciplined(),
    decreases events.len(),
{
    law_boot_is_sound(context);
    if events.len() > 0 {
        let before = State::boot(context).run(events.drop_last());
        law_always_sound(context, events.drop_last());
        law_step_keeps_invariant(before, events.last());
        law_step_keeps_interrupt_contract(before, events.last());
    }
}

/// While a task can take over, one task runs. In a state with a running
/// task and a non-empty ready queue, every event leaves exactly one task
/// running: the one that the state names, and no other. And an executor goes
/// idle only from an empty ready queue: it does so when the last task that
/// could run blocks or ends.
pub proof fn law_running_task_remains(s: State, event: Event)
    requires
        s.wf(),
        s.accepts(event),
        s.current is Some,
    ensures
        s.ready.len() > 0 ==> s.step(event).current is Some,
        s.step(event).current is None ==> s.ready.len() == 0,
        s.step(event).current is Some ==> s.step(event).has_task(s.step(event).current->0)
            && s.step(event).tasks[s.step(event).current->0 as int].state is Running,
        forall|i: int|
            0 <= i < s.step(event).tasks.len() && (#[trigger] s.step(event).tasks[i]).state
                is Running ==> s.step(event).current == Some(i as usize),
{
    law_step_keeps_invariant(s, event);
    match event {
        Event::Tick { now } => lemma_tick_keeps_current(s, now),
        Event::NotifyOne { queue, resched } => {
            if s.queues[queue as int].len() > 0 {
                lemma_wake_head_wf(s, queue);
            }
        },
        Event::NotifyAll { queue, resched } => {
            law_notify_order(s, queue, s.queues[queue as int].len());
        },
        _ => {},
    }
}

// ----- no task is linked into two structures -----

/// In a state that meets the invariant a task is owned by one structure:
/// a task in the ready queue has no timer and stands in no wait queue; a task
/// stands in at most one wait queue; and a task that both has a timer and
/// stands in a wait queue is a timed waiter of that queue, blocked until
/// a notification or the timer claims it. The running task and an ended task
/// are linked nowhere.
pub proof fn law_single_owner(s: State, task: usize)
    requires
        s.wf(),
    ensures
        s.in_ready_queue(task) ==> s.has_task(task) && s.tasks[task as int].state is Ready
            && !s.in_sleep_queue(task) && !s.in_some_wait_queue(task),
        s.in_sleep_queue(task) ==> s.has_task(task) && s.tasks[task as int].state.deadline()
            is Some,
        s.in_sleep_queue(task) && !s.in_some_wait_queue(task) ==> s.tasks[task as int].state
            is Sleeping,
        forall|queue: usize| #[trigger]
            s.in_wait_queue(task, queue) ==> s.has_task(task) && s.tasks[task as int].state
                is Waiting && s.tasks[task as int].state->queue == queue,
        forall|a: usize, b: usize|
            s.in_wait_queue(task, a) && s.in_wait_queue(task, b) ==> a == b,
        forall|queue: usize| #[trigger]
            s.in_wait_queue(task, queue) ==> (s.in_sleep_queue(task) <==> s.tasks[task as int].state->Waiting_deadline
                is Some),
        s.has_task(task) && (s.tasks[task as int].state is Running || s.tasks[task as int].state
            is Terminated) ==> !s.in_ready_queue(task) && !s.in_sleep_queue(task)
            && !s.in_some_wait_queue(task),
{
    assert forall|queue: usize| #[trigger] s.in_wait_queue(task, queue) implies s.has_task(task)
        && s.tasks[task as int].state is Waiting && s.tasks[task as int].state->queue
        == queue by {
        let list = s.queues[queue as int];
        let k = choose|k: int| 0 <= k < list.len() && list[k] == task;
        assert(s.has_task(s.queues[queue as int][k]));
    }
    if s.in_ready_queue(task) {
        let k = choose|k: int| 0 <= k < s.ready.len() && s.ready[k] == task;
        assert(s.has_task(s.ready[k]));
        lemma_no_timer(s, task);
    }
    if s.in_sleep_queue(task) {
        let k = timer_index(s.sleepers, task);
        assert(s.has_task(s.sleepers[k].task));
        if !s.in_some_wait_queue(task) {
            if s.tasks[task as int].state is Waiting {
                let q = s.tasks[task as int].state->queue;
                assert(s.in_wait_queue(task, q));
            }
        }
    }
    assert forall|queue: usize| #[trigger] s.in_wait_queue(task, queue) implies (
    s.in_sleep_queue(task) <==> s.tasks[task as int].state->Waiting_deadline is Some) by {
        if s.in_sleep_queue(task) {
            let k = timer_index(s.sleepers, task);
            assert(s.has_task(s.sleepers[k].task));
        }
    }
    if s.has_task(task) && (s.tasks[task as int].state is Running || s.tasks[task as int].state
        is Terminated) {
        lemma_not_ready(s, task);
        lemma_no_timer(s, task);
    }
}

// ----- the interrupt contract -----

/// Taking the running task off the processor keeps the interrupt contract:
/// the task saves the flag of its caller, which is enabled.
proof fn lemma_suspend_disciplined(s: State, state: TaskState)
    requires
        s.wf(),
        s.disciplined(),
        s.current is Some,
    ensures
        s.suspend_current(state).disciplined(),
        s.requeue_current().disciplined(),
        forall|deadline: u64| (#[trigger] s.sleep_current(deadline)).disciplined(),
        forall|queue: usize, deadline: Option<u64>|
            (#[trigger] s.block_current(queue, deadline)).disciplined(),
        s.retire_current().disciplined(),
{
    let c = s.current->0;
    assert forall|st: TaskState| (#[trigger] s.suspend_current(st)).disciplined() by {
        let r = s.suspend_current(st);
        assert forall|i: int|
            0 <= i < r.tasks.len() && (#[trigger] r.tasks[i]).is_suspended() implies r.tasks[i].irq_saved by {
            if i != c {
                assert(s.tasks[i].is_suspended());
            }
        }
    }
    assert(s.requeue_current().tasks == s.suspend_current(TaskState::Ready).tasks);
    assert forall|deadline: u64| (#[trigger] s.sleep_current(deadline)).disciplined() by {
        assert(s.sleep_current(deadline).tasks == s.suspend_current(
            TaskState::Sleeping { until: deadline },
        ).tasks);
    }
    assert forall|queue: usize, deadline: Option<u64>|
        (#[trigger] s.block_current(queue, deadline)).disciplined() by {
        assert(s.block_current(queue, deadline).tasks == s.suspend_current(
            TaskState::Waiting { queue, deadline },
        ).tasks);
    }
}

/// Handing over the processor keeps the interrupt contract: the task that
/// runs next gets the flag it saved, which is enabled.
proof fn lemma_dispatch_disciplined(s: State)
    requires
        s.wf(),
        s.current is None,
        forall|i: int|
            0 <= i < s.tasks.len() && (#[trigger] s.tasks[i]).is_suspended()
                ==> s.tasks[i].irq_saved,
    ensures
        s.dispatch().disciplined(),
{
    let r = s.dispatch();
    if s.ready.len() > 0 {
        let next = s.ready[0];
        assert(s.has_task(s.ready[0]));
        assert(s.tasks[next as int].is_suspended());
        assert forall|i: int|
            0 <= i < r.tasks.len() && (#[trigger] r.tasks[i]).is_suspended() implies r.tasks[i].irq_saved by {
            if i != next {
                assert(s.tasks[i].is_suspended());
            }
        }
    }
}

/// A wake keeps the interrupt contract: the woken task keeps the flag that
/// it saved when it blocked.
proof fn lemma_wake_disciplined(s: State, queue: usize)
    requires
        s.wf(),
        s.disciplined(),
    ensures
        s.sleepers.len() > 0 ==> s.expire_head().disciplined(),
        s.has_queue(queue) && s.queues[queue as int].len() > 0 ==> s.wake_head(
            queue,
        ).disciplined(),
{
    if s.sleepers.len() > 0 {
        let t = s.sleepers[0].task;
        let r = s.expire_head();
        assert(s.has_task(s.sleepers[0].task));
        assert forall|i: int|
            0 <= i < r.tasks.len() && (#[trigger] r.tasks[i]).is_suspended() implies r.tasks[i].irq_saved by {
            if i != t {
                assert(s.tasks[i].is_suspended());
            } else {
                assert(s.tasks[i].state.deadline() is Some);
                assert(s.tasks[i].is_suspended());
            }
        }
    }
    if s.has_queue(queue) && s.queues[queue as int].len() > 0 {
        let t = s.queues[queue as int][0];
        let r = s.wake_head(queue);
        assert(s.has_task(s.queues[queue as int][0]));
        assert forall|i: int|
            0 <= i < r.tasks.len() && (#[trigger] r.tasks[i]).is_suspended() implies r.tasks[i].irq_saved by {
            if i != t {
                assert(s.tasks[i].is_suspended());
            } else {
                assert(s.tasks[i].state is Waiting);
                assert(s.tasks[i].is_suspended());
            }
        }
    }
}

/// Firing every due timer keeps the interrupt contract.
proof fn lemma_expire_due_disciplined(s: State)
    requires
        s.wf(),
        s.disciplined(),
    ensures
        s.expire_due().disciplined(),
    decreases s.sleepers.len(),
{
    if s.sleepers.len() > 0 && s.sleepers[0].deadline <= s.now {
        lemma_wake_disciplined(s, 0);
        lemma_expire_head_wf(s);
        lemma_expire_due_disciplined(s.expire_head());
    }
}

/// Notifying waiters keeps the interrupt contract.
proof fn lemma_wake_many_disciplined(s: State, queue: usize, count: nat)
    requires
        s.wf(),
        s.disciplined(),
    ensures
        s.wake_many(queue, count).disciplined(),
    decreases count,
{
    if count > 0 && s.has_queue(queue) && s.queues[queue as int].len() > 0 {
        lemma_wake_disciplined(s, queue);
        lemma_wake_head_wf(s, queue);
        lemma_wake_many_disciplined(s.wake_head(queue), queue, (count - 1) as nat);
    }
}

/// A yield keeps the interrupt contract.
proof fn lemma_yield_disciplined(s: State)
    requires
        s.wf(),
        s.disciplined(),
    ensures
        s.yield_now().disciplined(),
{
    if s.ready.len() == 0 {
    } else if s.current is Some {
        lemma_suspend_disciplined(s, TaskState::Ready);
        lemma_requeue_current_wf(s);
        lemma_dispatch_disciplined(s.requeue_current());
    } else {
        lemma_dispatch_disciplined(s);
    }
}

/// Blocking on a wait queue keeps the interrupt contract.
proof fn lemma_block_disciplined(s: State, queue: usize, deadline: Option<u64>)
    requires
        s.wf(),
        s.disciplined(),
        s.has_queue(queue),
        s.current is Some,
    ensures
        s.block_current(queue, deadline).dispatch().disciplined(),
{
    lemma_suspend_disciplined(s, TaskState::Ready);
    lemma_block_current_wf(s, queue, deadline);
    lemma_dispatch_disciplined(s.block_current(queue, deadline));
}

/// A sleep keeps the interrupt contract.
proof fn lemma_sleep_disciplined(s: State, deadline: u64)
    requires
        s.wf(),
        s.disciplined(),
    ensures
        s.sleep_until(deadline).disciplined(),
{
    if deadline <= s.now {
        lemma_yield_disciplined(s);
    } else if s.current is Some {
        lemma_suspend_disciplined(s, TaskState::Ready);
        lemma_sleep_current_wf(s, deadline);
        lemma_dispatch_disciplined(s.sleep_current(deadline));
    }
}

/// The interrupt contract is an invariant. If interrupts are enabled and
/// every suspended task saved them enabled, then after any event interrupts
/// are enabled for the code that runs next, and every suspended task still
/// gets them back enabled: task code never observes a masked processor on
/// return from `yield_now`, `sleep`, `wait`, `wait_until` or
/// `wait_timeout_until`, nor after a spawn, a notification or a tick.
pub proof fn law_step_keeps_interrupt_contract(s: State, event: Event)
    requires
        s.wf(),
        s.disciplined(),
        s.accepts(event),
    ensures
        s.step(event).disciplined(),
{
    match event {
        Event::Spawn { context } => {
            let r = s.spawn(context);
            assert forall|i: int|
                0 <= i < r.tasks.len() && (#[trigger] r.tasks[i]).is_suspended() implies r.tasks[i].irq_saved by {
                if i < s.tasks.len() {
                    assert(s.tasks[i].is_suspended());
                }
            }
        },
        Event::AddQueue => {},
        Event::Yield => lemma_yield_disciplined(s),
        Event::Sleep { duration } => lemma_sleep_disciplined(s, deadline_after(s.now, duration)),
        Event::SleepUntil { deadline } => lemma_sleep_disciplined(s, deadline),
        Event::Exit => {
            if s.current is Some {
                lemma_suspend_disciplined(s, TaskState::Ready);
                lemma_retire_current_wf(s);
                lemma_dispatch_disciplined(s.retire_current());
            }
        },
        Event::Tick { now } => {
            let advanced = State { now: if now > s.now { now } else { s.now }, ..s };
            assert(advanced.tasks == s.tasks && advanced.ready == s.ready && advanced.sleepers
                == s.sleepers && advanced.queues == s.queues && advanced.current == s.current);
            assert(advanced.wf());
            lemma_expire_due_disciplined(advanced);
        },
        Event::Wait { queue } => {
            if s.current is Some {
                lemma_block_disciplined(s, queue, None);
            }
        },
        Event::WaitUntil { queue, satisfied } => {
            if !satisfied && s.current is Some {
                lemma_block_disciplined(s, queue, None);
            }
        },
        Event::WaitDeadlineUntil { queue, deadline, satisfied } => {
            if !(satisfied || s.now >= deadline || s.current is None) {
                lemma_block_disciplined(s, queue, Some(deadline));
            }
        },
        Event::WaitTimeoutUntil { queue, timeout, satisfied } => {
            let deadline = deadline_after(s.now, timeout);
            if !(satisfied || s.now >= deadline || s.current is None) {
                lemma_block_disciplined(s, queue, Some(deadline));
            }
        },
        Event::NotifyOne { queue, resched } => {
            if s.queues[queue as int].len() > 0 {
                lemma_wake_disciplined(s, queue);
                lemma_wake_head_wf(s, queue);
                lemma_yield_disciplined(s.wake_head(queue));
            } else {
                lemma_yield_disciplined(s);
            }
        },
        Event::NotifyAll { queue, resched } => {
            let n = s.queues[queue as int].len();
            lemma_wake_many_disciplined(s, queue, n);
            lemma_wake_many_wf(s, queue, n);
            lemma_yield_disciplined(s.wake_many(queue, n));
        },
    }
}

/// The flag travels with the task. A step that takes the running task off
/// the processor saves the flag that the task had, and a step that puts
/// another task on the processor sets the flag to what that task saved: each
/// task gets back, on return from a suspension point, the interrupt state in
/// which it called it.
pub proof fn law_flag_travels_with_task(s: State, event: Event)
    requires
        s.wf(),
        s.accepts(event),
    ensures
        s.current is Some && s.step(event).current != s.current ==> s.step(
            event,
        ).tasks[s.current->0 as int].irq_saved == s.irq_enabled,
        s.step(event).current is Some && s.step(event).current != s.current && s.has_task(
            s.step(event).current->0,
        ) ==> s.step(event).irq_enabled == s.tasks[s.step(event).current->0 as int].irq_saved,
{
    let r = s.step(event);
    match event {
        Event::Spawn { context } => {},
        Event::AddQueue => {},
        Event::Yield => lemma_yield_flag(s),
        Event::Sleep { duration } => {
            let d = deadline_after(s.now, duration);
            if d <= s.now {
                lemma_yield_flag(s);
            } else if s.current is Some {
                lemma_sleep_current_wf(s, d);
                lemma_switch_flag(s, s.sleep_current(d));
            }
        },
        Event::SleepUntil { deadline } => {
            if deadline <= s.now {
                lemma_yield_flag(s);
            } else if s.current is Some {
                lemma_sleep_current_wf(s, deadline);
                lemma_switch_flag(s, s.sleep_current(deadline));
            }
        },
        Event::Exit => {
            if s.current is Some {
                lemma_retire_current_wf(s);
                lemma_switch_flag(s, s.retire_current());
            }
        },
        Event::Tick { now } => {
            lemma_tick_keeps_current(s, now);
        },
        Event::Wait { queue } => {
            if s.current is Some {
                lemma_block_current_wf(s, queue, None);
                lemma_switch_flag(s, s.block_current(queue, None));
            }
        },
        Event::WaitUntil { queue, satisfied } => {
            if !satisfied && s.current is Some {
                lemma_block_current_wf(s, queue, None);
                lemma_switch_flag(s, s.block_current(queue, None));
            }
        },
        Event::WaitDeadlineUntil { queue, deadline, satisfied } => {
            if !(satisfied || s.now >= deadline || s.current is None) {
                lemma_block_current_wf(s, queue, Some(deadline));
                lemma_switch_flag(s, s.block_current(queue, Some(deadline)));
            }
        },
        Event::WaitTimeoutUntil { queue, timeout, satisfied } => {
            let deadline = deadline_after(s.now, timeout);
            if !(satisfied || s.now >= deadline || s.current is None) {
                lemma_block_current_wf(s, queue, Some(deadline));
                lemma_switch_flag(s, s.block_current(queue, Some(deadline)));
            }
        },
        Event::NotifyOne { queue, resched } => {
            if s.queues[queue as int].len() > 0 {
                let w = s.wake_head(queue);
                assert(s.has_task(s.queues[queue as int][0]));
                lemma_wake_head_wf(s, queue);
                if resched {
                    lemma_yield_flag(w);
                }
            } else if resched {
                lemma_yield_flag(s);
            }
        },
        Event::NotifyAll { queue, resched } => {
            let n = s.queues[queue as int].len();
            let w = s.wake_many(queue, n);
            law_notify_order(s, queue, n);
            if resched {
                lemma_yield_flag(w);
            }
        },
    }
}

/// A tick switches no task.
proof fn lemma_tick_keeps_current(s: State, now: u64)
    requires
        s.wf(),
    ensures
        s.tick(now).current == s.current,
        s.tick(now).irq_enabled == s.irq_enabled,
{
    law_tick_order(s, now);
}

/// After the running task has been parked, the hand-over gives the next
/// task its own flag and leaves the parked task's saved flag alone.
proof fn lemma_switch_flag(s: State, parked: State)
    requires
        s.wf(),
        parked.wf(),
        s.current is Some,
        parked.current is None,
        parked.tasks.len() == s.tasks.len(),
        parked.tasks[s.current->0 as int].irq_saved == s.irq_enabled,
        !(parked.tasks[s.current->0 as int].state is Ready),
        forall|i: int|
            0 <= i < s.tasks.len() && i != s.current->0 ==> parked.tasks[i] == s.tasks[i],
    ensures
        parked.dispatch().current != s.current,
        parked.dispatch().tasks[s.current->0 as int].irq_saved == s.irq_enabled,
        parked.dispatch().current is Some ==> s.has_task(parked.dispatch().current->0)
            && parked.dispatch().irq_enabled
            == s.tasks[parked.dispatch().current->0 as int].irq_saved,
{
    if parked.ready.len() > 0 {
        assert(parked.has_task(parked.ready[0]));
    }
}

/// A yield saves the caller's flag and gives the next task its own.
proof fn lemma_yield_flag(s: State)
    requires
        s.wf(),
    ensures
        s.current is Some && s.yield_now().current != s.current ==> s.yield_now().tasks[s.current->0 as int].irq_saved
            == s.irq_enabled,
        s.yield_now().current is Some && s.yield_now().current != s.current ==> s.has_task(
            s.yield_now().current->0,
        ) && s.yield_now().irq_enabled == s.tasks[s.yield_now().current->0 as int].irq_saved,
        s.yield_now().current == s.current ==> s.yield_now() == s,
{
    if s.ready.len() == 0 {
    } else if s.current is Some {
        let c = s.current->0;
        let parked = s.requeue_current();
        lemma_requeue_current_wf(s);
        lemma_not_ready(s, c);
        assert(parked.has_task(parked.ready[0]));
        assert(parked.ready[0] == s.ready[0]);
        assert(s.ready.contains(s.ready[0]));
    } else {
        assert(s.has_task(s.ready[0]));
    }
}

/// Only the suspension points switch tasks. A spawn, a new wait queue, a
/// tick and a notification that does not ask for a yield leave the running
/// task on the processor, with its interrupt flag as it was.
pub proof fn law_only_suspension_points_switch(s: State, event: Event)
    requires
        s.wf(),
        s.accepts(event),
        match event {
            Event::Spawn { .. } => true,
            Event::AddQueue => true,
            Event::Tick { .. } => true,
            Event::NotifyOne { resched, .. } => !resched,
            Event::NotifyAll { resched, .. } => !resched,
            _ => false,
        },
    ensures
        s.step(event).current == s.current,
        s.step(event).irq_enabled == s.irq_enabled,
{
    match event {
        Event::Tick { now } => lemma_tick_keeps_current(s, now),
        Event::NotifyAll { queue, resched } => {
            law_notify_order(s, queue, s.queues[queue as int].len());
        },
        _ => {},
    }
}

// ----- the life cycle of a task -----

/// What a yield does to each task: the caller becomes ready, the head of the
/// ready queue runs, nobody else moves.
proof fn lemma_yield_moves(s: State, task: usize)
    requires
        s.wf(),
        s.has_task(task),
    ensures
        s.yield_now().tasks.len() == s.tasks.len(),
        s.yield_now().tasks[task as int].id == s.tasks[task as int].id,
        s.yield_now().tasks[task as int].context == s.tasks[task as int].context,
        s.tasks[task as int].state is Running ==> s.yield_now().tasks[task as int].state is Ready
            || s.yield_now().tasks[task as int].state is Running,
        s.tasks[task as int].state is Ready ==> s.yield_now().tasks[task as int].state is Ready
            || s.yield_now().tasks[task as int].state is Running,
        !(s.tasks[task as int].state is Running) && !(s.tasks[task as int].state is Ready)
            ==> s.yield_now().tasks[task as int] == s.tasks[task as int],
{
    if s.ready.len() == 0 {
    } else if s.current is Some {
        let parked = s.requeue_current();
        lemma_requeue_current_wf(s);
        assert(parked.has_task(parked.ready[0]));
    } else {
        assert(s.has_task(s.ready[0]));
    }
}

/// What a blocking or ending switch does to each task: the head of the
/// ready queue runs, nobody but it and the caller moves.
proof fn lemma_switch_moves(s: State, parked: State, task: usize)
    requires
        s.wf(),
        parked.wf(),
        s.has_task(task),
        s.current is Some,
        parked.current is None,
        parked.tasks.len() == s.tasks.len(),
        parked.tasks[s.current->0 as int].id == s.tasks[s.current->0 as int].id,
        parked.tasks[s.current->0 as int].context == s.tasks[s.current->0 as int].context,
        forall|i: int|
            0 <= i < s.tasks.len() && i != s.current->0 ==> parked.tasks[i] == s.tasks[i],
    ensures
        parked.dispatch().tasks.len() == s.tasks.len(),
        parked.dispatch().tasks[task as int].id == s.tasks[task as int].id,
        parked.dispatch().tasks[task as int].context == s.tasks[task as int].context,
        may_become(s.tasks[task as int].state, parked.dispatch().tasks[task as int].state),
        s.tasks[task as int].state is Terminated ==> parked.dispatch().tasks[task as int]
            == s.tasks[task as int],
{
    if parked.ready.len() > 0 {
        assert(parked.has_task(parked.ready[0]));
    }
}

/// Every event moves every task along its life cycle and no other way, and
/// leaves its identifier and its context handle alone. In particular an
/// ended task is never touched again: it is not enqueued and does not run.
pub proof fn law_task_life_cycle(s: State, event: Event, task: usize)
    requires
        s.wf(),
        s.accepts(event),
        s.has_task(task),
    ensures
        s.step(event).has_task(task),
        s.step(event).tasks[task as int].id == task,
        s.step(event).tasks[task as int].context == s.tasks[task as int].context,
        may_become(s.tasks[task as int].state, s.step(event).tasks[task as int].state),
        s.tasks[task as int].state is Terminated ==> s.step(event).tasks[task as int]
            == s.tasks[task as int],
{
    assert(s.tasks[task as int].id == task);
    match event {
        Event::Spawn { context } => {},
        Event::AddQueue => {},
        Event::Yield => lemma_yield_moves(s, task),
        Event::Sleep { duration } => {
            let d = deadline_after(s.now, duration);
            if d <= s.now {
                lemma_yield_moves(s, task);
            } else if s.current is Some {
                lemma_sleep_current_wf(s, d);
                lemma_switch_moves(s, s.sleep_current(d), task);
            }
        },
        Event::SleepUntil { deadline } => {
            if deadline <= s.now {
                lemma_yield_moves(s, task);
            } else if s.current is Some {
                lemma_sleep_current_wf(s, deadline);
                lemma_switch_moves(s, s.sleep_current(deadline), task);
            }
        },
        Event::Exit => {
            if s.current is Some {
                lemma_retire_current_wf(s);
                lemma_switch_moves(s, s.retire_current(), task);
            }
        },
        Event::Tick { now } => {
            let advanced = State { now: if now > s.now { now } else { s.now }, ..s };
            assert(advanced.tasks == s.tasks && advanced.ready == s.ready && advanced.sleepers
                == s.sleepers && advanced.queues == s.queues && advanced.current == s.current);
            assert(advanced.wf());
            law_expiry_order(advanced);
        },
        Event::Wait { queue } => {
            if s.current is Some {
                lemma_block_current_wf(s, queue, None);
                lemma_switch_moves(s, s.block_current(queue, None), task);
            }
        },
        Event::WaitUntil { queue, satisfied } => {
            if !satisfied && s.current is Some {
                lemma_block_current_wf(s, queue, None);
                lemma_switch_moves(s, s.block_current(queue, None), task);
            }
        },
        Event::WaitDeadlineUntil { queue, deadline, satisfied } => {
            if !(satisfied || s.now >= deadline || s.current is None) {
                lemma_block_current_wf(s, queue, Some(deadline));
                lemma_switch_moves(s, s.block_current(queue, Some(deadline)), task);
            }
        },
        Event::WaitTimeoutUntil { queue, timeout, satisfied } => {
            let deadline = deadline_after(s.now, timeout);
            if !(satisfied || s.now >= deadline || s.current is None) {
                lemma_block_current_wf(s, queue, Some(deadline));
                lemma_switch_moves(s, s.block_current(queue, Some(deadline)), task);
            }
        },
        Event::NotifyOne { queue, resched } => {
            if s.queues[queue as int].len() > 0 {
                let w = s.wake_head(queue);
                assert(s.has_task(s.queues[queue as int][0]));
                lemma_wake_head_wf(s, queue);
                lemma_yield_moves(w, task);
            } else {
                lemma_yield_moves(s, task);
            }
        },
        Event::NotifyAll { queue, resched } => {
            let n = s.queues[queue as int].len();
            let w = s.wake_many(queue, n);
            law_notify_order(s, queue, n);
            let list = s.queues[queue as int].take(n as int);
            if list.contains(task) {
                let k = choose|k: int| 0 <= k < list.len() && list[k] == task;
                assert(s.has_task(s.queues[queue as int][k]));
            }
            lemma_yield_moves(w, task);
        },
    }
}

} // verus!
