//! Every step that a transition is made of keeps the invariant.

use vstd::prelude::*;
use crate::lists::{lemma_arm_timer, lemma_drop_head, lemma_push_fresh, lemma_remove_at,
    lemma_remove_timer_at};
use crate::state::{arm_timer, cancel_timer, has_timer, timer_index, without_task, State,
    TimerEntry};
use crate::task::TaskState;

verus! {

/// A task that is not blocked with a deadline has no timer.
pub proof fn lemma_no_timer(s: State, task: usize)
    requires
        s.wf(),
        s.has_task(task),
        s.tasks[task as int].state.deadline() is None,
    ensures
        !has_timer(s.sleepers, task),
{
    if has_timer(s.sleepers, task) {
        let k = timer_index(s.sleepers, task);
        assert(s.has_task(s.sleepers[k].task));
    }
}

/// A task that waits on no queue is in no block list.
pub proof fn lemma_not_queued(s: State, task: usize, queue: int)
    requires
        s.wf(),
        s.has_task(task),
        0 <= queue < s.queues.len(),
        s.tasks[task as int].state.waiting_on() != Some(queue as usize),
    ensures
        !s.queues[queue].contains(task),
{
    if s.queues[queue].contains(task) {
        let k = choose|k: int| 0 <= k < s.queues[queue].len() && s.queues[queue][k] == task;
        assert(s.has_task(s.queues[queue][k]));
    }
}

/// A task that is not ready is not in the ready queue.
pub proof fn lemma_not_ready(s: State, task: usize)
    requires
        s.wf(),
        s.has_task(task),
        !(s.tasks[task as int].state is Ready),
    ensures
        !s.ready.contains(task),
{
    if s.ready.contains(task) {
        let k = choose|k: int| 0 <= k < s.ready.len() && s.ready[k] == task;
        assert(s.has_task(s.ready[k]));
    }
}

/// The invariant does not speak of the interrupt flag.
pub proof fn lemma_wf_with_irq(s: State, irq: bool)
    ensures
        s.with_irq(irq).wf() == s.wf(),
{
    let r = s.with_irq(irq);
    if s.wf() {
        assert(r.tasks == s.tasks && r.ready == s.ready && r.sleepers == s.sleepers && r.queues
            == s.queues && r.current == s.current);
        assert(r.wf());
    }
    if r.wf() {
        assert(s == r.with_irq(s.irq_enabled));
        assert(s.wf());
    }
}

/// The executor comes up in a state that meets the invariant.
pub proof fn lemma_boot_wf(context: u64)
    ensures
        State::boot(context).wf(),
{
    let s = State::boot(context);
    assert(s.tasks[0].state is Running);
    assert(s.tasks[0].state.deadline() is None);
}

/// A spawn keeps the invariant, while the task table can still grow.
pub proof fn lemma_spawn_wf(s: State, context: u64)
    requires
        s.wf(),
        s.tasks.len() < usize::MAX,
    ensures
        s.spawn(context).wf(),
{
    let r = s.spawn(context);
    let id = s.tasks.len() as usize;
    assert forall|i: int| 0 <= i < s.tasks.len() implies r.tasks[i] == s.tasks[i] by {}
    assert(!s.ready.contains(id)) by {
        if s.ready.contains(id) {
            let k = choose|k: int| 0 <= k < s.ready.len() && s.ready[k] == id;
            assert(s.has_task(s.ready[k]));
        }
    }
    lemma_push_fresh(s.ready, id);
    assert(r.ids_ok());
    assert(r.current_ok()) by {
        assert forall|i: int|
            0 <= i < r.tasks.len() && (#[trigger] r.tasks[i]).state is Running implies r.current
            == Some(i as usize) by {
            assert(i < s.tasks.len());
            assert(s.tasks[i].state is Running);
        }
    }
    assert(r.ready_ok()) by {
        assert forall|k: int| 0 <= k < r.ready.len() implies r.has_task(#[trigger] r.ready[k])
            && r.tasks[r.ready[k] as int].state is Ready by {
            if k < s.ready.len() {
                assert(s.has_task(s.ready[k]));
            }
        }
        assert forall|i: int|
            0 <= i < r.tasks.len() && (#[trigger] r.tasks[i]).state is Ready implies r.ready.contains(
            i as usize,
        ) by {
            if i < s.tasks.len() {
                assert(s.tasks[i].state is Ready);
            }
        }
    }
    assert(r.sleepers_ok()) by {
        assert forall|k: int| 0 <= k < r.sleepers.len() implies r.has_task(
            (#[trigger] r.sleepers[k]).task,
        ) && r.tasks[r.sleepers[k].task as int].state.deadline() == Some(
            r.sleepers[k].deadline,
        ) by {
            assert(s.has_task(s.sleepers[k].task));
        }
        assert forall|i: int|
            0 <= i < r.tasks.len() && (#[trigger] r.tasks[i]).state.deadline()
                is Some implies has_timer(r.sleepers, i as usize) by {
            assert(i < s.tasks.len());
            assert(s.tasks[i].state.deadline() is Some);
        }
    }
    assert(r.queues_ok()) by {
        assert forall|q: int, k: int|
            0 <= q < r.queues.len() && 0 <= k < r.queues[q].len() implies r.has_task(
            #[trigger] r.queues[q][k],
        ) && r.tasks[r.queues[q][k] as int].state.waiting_on() == Some(q as usize) by {
            assert(s.has_task(s.queues[q][k]));
        }
        assert forall|i: int|
            0 <= i < r.tasks.len() && (#[trigger] r.tasks[i]).state is Waiting implies ({
            let q = r.tasks[i].state->queue;
            r.has_queue(q) && r.queues[q as int].contains(i as usize)
        }) by {
            assert(i < s.tasks.len());
            assert(s.tasks[i].state is Waiting);
        }
    }
}

/// A new wait queue keeps the invariant, while the table of queues can still
/// grow.
pub proof fn lemma_add_queue_wf(s: State)
    requires
        s.wf(),
        s.queues.len() < usize::MAX,
    ensures
        s.add_queue().wf(),
{
    let r = s.add_queue();
    assert(r.queues_ok()) by {
        assert forall|q: int| 0 <= q < r.queues.len() implies (
        #[trigger] r.queues[q]).no_duplicates() by {
            if q < s.queues.len() {
                assert(r.queues[q] == s.queues[q]);
            }
        }
        assert forall|q: int, k: int|
            0 <= q < r.queues.len() && 0 <= k < r.queues[q].len() implies r.has_task(
            #[trigger] r.queues[q][k],
        ) && r.tasks[r.queues[q][k] as int].state.waiting_on() == Some(q as usize) by {
            assert(q < s.queues.len());
            assert(s.has_task(s.queues[q][k]));
        }
        assert forall|i: int|
            0 <= i < r.tasks.len() && (#[trigger] r.tasks[i]).state is Waiting implies ({
            let q = r.tasks[i].state->queue;
            r.has_queue(q) && r.queues[q as int].contains(i as usize)
        }) by {
            assert(s.tasks[i].state is Waiting);
            let q = s.tasks[i].state->queue;
            assert(r.queues[q as int] == s.queues[q as int]);
        }
    }
}

/// A step rewrites one task, `c`, and leaves alone every structure that `c`
/// is not in before or after: the parts of the invariant that speak of those
/// structures carry over. Here the ready queue, where `c` is not ready before
/// or after.
proof fn lemma_ready_kept(s: State, r: State, c: usize)
    requires
        s.wf(),
        s.has_task(c),
        r.tasks.len() == s.tasks.len(),
        forall|i: int| 0 <= i < s.tasks.len() && i != c ==> r.tasks[i] == s.tasks[i],
        r.ready == s.ready,
        !(s.tasks[c as int].state is Ready),
        !(r.tasks[c as int].state is Ready),
    ensures
        r.ready_ok(),
{
    lemma_not_ready(s, c);
    assert forall|k: int| 0 <= k < r.ready.len() implies r.has_task(#[trigger] r.ready[k])
        && r.tasks[r.ready[k] as int].state is Ready by {
        assert(s.has_task(s.ready[k]));
        assert(s.ready.contains(s.ready[k]));
    }
    assert forall|i: int|
        0 <= i < r.tasks.len() && (#[trigger] r.tasks[i]).state is Ready implies r.ready.contains(
        i as usize,
    ) by {
        assert(s.tasks[i].state is Ready);
    }
}

/// The same for the sleep queue, where the rewritten task has no deadline
/// before or after.
proof fn lemma_sleepers_kept(s: State, r: State, c: usize)
    requires
        s.wf(),
        s.has_task(c),
        r.tasks.len() == s.tasks.len(),
        forall|i: int| 0 <= i < s.tasks.len() && i != c ==> r.tasks[i] == s.tasks[i],
        r.sleepers == s.sleepers,
        s.tasks[c as int].state.deadline() is None,
        r.tasks[c as int].state.deadline() is None,
    ensures
        r.sleepers_ok(),
{
    lemma_no_timer(s, c);
    assert forall|k: int| 0 <= k < r.sleepers.len() implies r.has_task(
        (#[trigger] r.sleepers[k]).task,
    ) && r.tasks[r.sleepers[k].task as int].state.deadline() == Some(r.sleepers[k].deadline) by {
        assert(s.has_task(s.sleepers[k].task));
    }
    assert forall|i: int|
        0 <= i < r.tasks.len() && (#[trigger] r.tasks[i]).state.deadline()
            is Some implies has_timer(r.sleepers, i as usize) by {
        assert(s.tasks[i].state.deadline() is Some);
    }
}

/// The same for the wait queues, where the rewritten task waits neither
/// before nor after.
proof fn lemma_queues_kept(s: State, r: State, c: usize)
    requires
        s.wf(),
        s.has_task(c),
        r.tasks.len() == s.tasks.len(),
        forall|i: int| 0 <= i < s.tasks.len() && i != c ==> r.tasks[i] == s.tasks[i],
        r.queues == s.queues,
        !(s.tasks[c as int].state is Waiting),
        !(r.tasks[c as int].state is Waiting),
    ensures
        r.queues_ok(),
{
    assert forall|q: int, k: int|
        0 <= q < r.queues.len() && 0 <= k < r.queues[q].len() implies r.has_task(
        #[trigger] r.queues[q][k],
    ) && r.tasks[r.queues[q][k] as int].state.waiting_on() == Some(q as usize) by {
        assert(s.has_task(s.queues[q][k]));
    }
    assert forall|i: int|
        0 <= i < r.tasks.len() && (#[trigger] r.tasks[i]).state is Waiting implies ({
        let q = r.tasks[i].state->queue;
        r.has_queue(q) && r.queues[q as int].contains(i as usize)
    }) by {
        assert(s.tasks[i].state is Waiting);
    }
}

/// Identifiers stay table positions when one task is rewritten and keeps its
/// identifier.
proof fn lemma_ids_kept(s: State, r: State, c: usize)
    requires
        s.wf(),
        s.has_task(c),
        r.tasks.len() == s.tasks.len(),
        forall|i: int| 0 <= i < s.tasks.len() && i != c ==> r.tasks[i] == s.tasks[i],
        r.tasks[c as int].id == c,
        r.queues.len() == s.queues.len(),
    ensures
        r.ids_ok(),
{
    assert forall|i: int| 0 <= i < r.tasks.len() implies (#[trigger] r.tasks[i]).id == i by {
        assert(s.tasks[i].id == i);
    }
}

/// After the running task has left the processor, no task is running.
proof fn lemma_none_running(s: State, r: State, c: usize)
    requires
        s.wf(),
        s.current == Some(c),
        r.tasks.len() == s.tasks.len(),
        forall|i: int| 0 <= i < s.tasks.len() && i != c ==> r.tasks[i] == s.tasks[i],
        !(r.tasks[c as int].state is Running),
        r.current is None,
    ensures
        r.current_ok(),
{
    assert forall|i: int|
        0 <= i < r.tasks.len() && (#[trigger] r.tasks[i]).state is Running implies r.current
        == Some(i as usize) by {
        assert(s.tasks[i].state is Running);
    }
}

/// A step that leaves the running task alone leaves it running.
proof fn lemma_current_kept(s: State, r: State, c: usize)
    requires
        s.wf(),
        s.has_task(c),
        r.tasks.len() == s.tasks.len(),
        forall|i: int| 0 <= i < s.tasks.len() && i != c ==> r.tasks[i] == s.tasks[i],
        !(s.tasks[c as int].state is Running),
        !(r.tasks[c as int].state is Running),
        r.current == s.current,
    ensures
        r.current_ok(),
{
    assert forall|i: int|
        0 <= i < r.tasks.len() && (#[trigger] r.tasks[i]).state is Running implies r.current
        == Some(i as usize) by {
        assert(s.tasks[i].state is Running);
    }
    if s.current is Some {
        assert(s.tasks[s.current->0 as int].state is Running);
    }
}

/// A task that was not ready becomes ready at the tail of the ready queue.
proof fn lemma_ready_gains(s: State, r: State, c: usize)
    requires
        s.wf(),
        s.has_task(c),
        r.tasks.len() == s.tasks.len(),
        forall|i: int| 0 <= i < s.tasks.len() && i != c ==> r.tasks[i] == s.tasks[i],
        r.ready == s.ready.push(c),
        !(s.tasks[c as int].state is Ready),
        r.tasks[c as int].state is Ready,
    ensures
        r.ready_ok(),
{
    lemma_not_ready(s, c);
    lemma_push_fresh(s.ready, c);
    assert forall|k: int| 0 <= k < r.ready.len() implies r.has_task(#[trigger] r.ready[k])
        && r.tasks[r.ready[k] as int].state is Ready by {
        if k < s.ready.len() {
            assert(s.has_task(s.ready[k]));
            assert(s.ready.contains(s.ready[k]));
        }
    }
    assert forall|i: int|
        0 <= i < r.tasks.len() && (#[trigger] r.tasks[i]).state is Ready implies r.ready.contains(
        i as usize,
    ) by {
        if i != c {
            assert(s.tasks[i].state is Ready);
        }
    }
}

/// A task without a timer blocks with one.
proof fn lemma_sleepers_gain(s: State, r: State, c: usize, deadline: u64)
    requires
        s.wf(),
        s.has_task(c),
        r.tasks.len() == s.tasks.len(),
        forall|i: int| 0 <= i < s.tasks.len() && i != c ==> r.tasks[i] == s.tasks[i],
        r.sleepers == arm_timer(s.sleepers, TimerEntry { deadline, task: c }),
        s.tasks[c as int].state.deadline() is None,
        r.tasks[c as int].state.deadline() == Some(deadline),
    ensures
        r.sleepers_ok(),
{
    let entry = TimerEntry { deadline, task: c };
    lemma_no_timer(s, c);
    lemma_arm_timer(s.sleepers, entry);
    assert forall|k: int| 0 <= k < r.sleepers.len() implies r.has_task(
        (#[trigger] r.sleepers[k]).task,
    ) && r.tasks[r.sleepers[k].task as int].state.deadline() == Some(r.sleepers[k].deadline) by {
        let e = r.sleepers[k];
        if e != entry {
            assert(s.sleepers.contains(e));
            let j = choose|j: int| 0 <= j < s.sleepers.len() && s.sleepers[j] == e;
            assert(s.has_task(s.sleepers[j].task));
        }
    }
    assert forall|i: int|
        0 <= i < r.tasks.len() && (#[trigger] r.tasks[i]).state.deadline()
            is Some implies has_timer(r.sleepers, i as usize) by {
        if i != c {
            assert(s.tasks[i].state.deadline() is Some);
        }
    }
}

/// A task with a timer wakes and loses it.
proof fn lemma_sleepers_lose(s: State, r: State, c: usize)
    requires
        s.wf(),
        s.has_task(c),
        r.tasks.len() == s.tasks.len(),
        forall|i: int| 0 <= i < s.tasks.len() && i != c ==> r.tasks[i] == s.tasks[i],
        r.sleepers == cancel_timer(s.sleepers, c),
        r.tasks[c as int].state.deadline() is None,
    ensures
        r.sleepers_ok(),
{
    if has_timer(s.sleepers, c) {
        let j = timer_index(s.sleepers, c);
        lemma_remove_timer_at(s.sleepers, j);
        assert forall|k: int| 0 <= k < r.sleepers.len() implies r.has_task(
            (#[trigger] r.sleepers[k]).task,
        ) && r.tasks[r.sleepers[k].task as int].state.deadline() == Some(
            r.sleepers[k].deadline,
        ) by {
            let e = r.sleepers[k];
            assert(has_timer(r.sleepers, e.task));
            assert(s.sleepers.contains(e));
            let j = choose|j: int| 0 <= j < s.sleepers.len() && s.sleepers[j] == e;
            assert(s.has_task(s.sleepers[j].task));
        }
        assert forall|i: int|
            0 <= i < r.tasks.len() && (#[trigger] r.tasks[i]).state.deadline()
                is Some implies has_timer(r.sleepers, i as usize) by {
            assert(s.tasks[i].state.deadline() is Some);
        }
    } else {
        assert forall|k: int| 0 <= k < r.sleepers.len() implies r.has_task(
            (#[trigger] r.sleepers[k]).task,
        ) && r.tasks[r.sleepers[k].task as int].state.deadline() == Some(
            r.sleepers[k].deadline,
        ) by {
            assert(s.has_task(s.sleepers[k].task));
        }
        assert forall|i: int|
            0 <= i < r.tasks.len() && (#[trigger] r.tasks[i]).state.deadline()
                is Some implies has_timer(r.sleepers, i as usize) by {
            assert(s.tasks[i].state.deadline() is Some);
        }
    }
}

/// A task that waited on no queue blocks at the tail of `queue`.
proof fn lemma_queues_gain(s: State, r: State, c: usize, queue: usize)
    requires
        s.wf(),
        s.has_task(c),
        s.has_queue(queue),
        r.tasks.len() == s.tasks.len(),
        forall|i: int| 0 <= i < s.tasks.len() && i != c ==> r.tasks[i] == s.tasks[i],
        r.queues == s.queues.update(queue as int, s.queues[queue as int].push(c)),
        !(s.tasks[c as int].state is Waiting),
        r.tasks[c as int].state.waiting_on() == Some(queue),
    ensures
        r.queues_ok(),
{
    lemma_not_queued(s, c, queue as int);
    lemma_push_fresh(s.queues[queue as int], c);
    assert forall|q: int| 0 <= q < r.queues.len() implies (
    #[trigger] r.queues[q]).no_duplicates() by {
        if q != queue {
            assert(r.queues[q] == s.queues[q]);
        }
    }
    assert forall|q: int, k: int|
        0 <= q < r.queues.len() && 0 <= k < r.queues[q].len() implies r.has_task(
        #[trigger] r.queues[q][k],
    ) && r.tasks[r.queues[q][k] as int].state.waiting_on() == Some(q as usize) by {
        if q != queue || k < s.queues[q].len() {
            assert(r.queues[q][k] == s.queues[q][k]);
            assert(s.has_task(s.queues[q][k]));
        }
    }
    assert forall|i: int|
        0 <= i < r.tasks.len() && (#[trigger] r.tasks[i]).state is Waiting implies ({
        let q = r.tasks[i].state->queue;
        r.has_queue(q) && r.queues[q as int].contains(i as usize)
    }) by {
        if i != c {
            assert(s.tasks[i].state is Waiting);
            let q = s.tasks[i].state->queue;
            if q != queue {
                assert(r.queues[q as int] == s.queues[q as int]);
            }
        }
    }
}

/// A waiter leaves its wait queue and waits no more.
proof fn lemma_queues_lose(s: State, r: State, c: usize, queue: usize)
    requires
        s.wf(),
        s.has_task(c),
        s.tasks[c as int].state.waiting_on() == Some(queue),
        r.tasks.len() == s.tasks.len(),
        forall|i: int| 0 <= i < s.tasks.len() && i != c ==> r.tasks[i] == s.tasks[i],
        r.queues == s.queues.update(queue as int, without_task(s.queues[queue as int], c)),
        !(r.tasks[c as int].state is Waiting),
    ensures
        r.queues_ok(),
{
    assert(s.tasks[c as int].state is Waiting);
    let old_list = s.queues[queue as int];
    assert(old_list.contains(c));
    let j = choose|j: int| 0 <= j < old_list.len() && old_list[j] == c;
    lemma_remove_at(old_list, j);
    assert(s.has_queue(queue));
    let new_list = r.queues[queue as int];
    assert(new_list == old_list.remove(j));
    assert forall|q: int| 0 <= q < r.queues.len() implies (
    #[trigger] r.queues[q]).no_duplicates() by {
        if q != queue {
            assert(r.queues[q] == s.queues[q]);
        }
    }
    assert forall|q: int, k: int|
        0 <= q < r.queues.len() && 0 <= k < r.queues[q].len() implies r.has_task(
        #[trigger] r.queues[q][k],
    ) && r.tasks[r.queues[q][k] as int].state.waiting_on() == Some(q as usize) by {
        let x = r.queues[q][k];
        if q != queue {
            assert(r.queues[q] == s.queues[q]);
            assert(s.has_task(s.queues[q][k]));
            assert(x != c);
        } else {
            assert(new_list[k] == x);
            assert(new_list.contains(x));
            assert(old_list.contains(x) && x != c);
            let m = choose|m: int| 0 <= m < old_list.len() && old_list[m] == x;
            assert(s.has_task(s.queues[queue as int][m]));
            assert(s.tasks[x as int].state.waiting_on() == Some(queue));
        }
        assert(r.tasks[x as int] == s.tasks[x as int]);
    }
    assert forall|i: int|
        0 <= i < r.tasks.len() && (#[trigger] r.tasks[i]).state is Waiting implies ({
        let q = r.tasks[i].state->queue;
        r.has_queue(q) && r.queues[q as int].contains(i as usize)
    }) by {
        assert(s.tasks[i].state is Waiting);
        let q = s.tasks[i].state->queue;
        if q != queue {
            assert(r.queues[q as int] == s.queues[q as int]);
        }
    }
}

/// The running task goes back to the ready queue: the invariant holds, with
/// nobody running.
pub proof fn lemma_requeue_current_wf(s: State)
    requires
        s.wf(),
        s.current is Some,
    ensures
        s.requeue_current().wf(),
{
    let c = s.current->0;
    let r = s.requeue_current();
    lemma_ids_kept(s, r, c);
    lemma_none_running(s, r, c);
    lemma_ready_gains(s, r, c);
    lemma_sleepers_kept(s, r, c);
    lemma_queues_kept(s, r, c);
}

/// The running task goes to sleep: the invariant holds, with nobody running.
pub proof fn lemma_sleep_current_wf(s: State, deadline: u64)
    requires
        s.wf(),
        s.current is Some,
    ensures
        s.sleep_current(deadline).wf(),
{
    let c = s.current->0;
    let r = s.sleep_current(deadline);
    lemma_ids_kept(s, r, c);
    lemma_none_running(s, r, c);
    lemma_ready_kept(s, r, c);
    lemma_sleepers_gain(s, r, c, deadline);
    lemma_queues_kept(s, r, c);
}

/// The running task blocks on a wait queue: the invariant holds, with nobody
/// running.
pub proof fn lemma_block_current_wf(s: State, queue: usize, deadline: Option<u64>)
    requires
        s.wf(),
        s.current is Some,
        s.has_queue(queue),
    ensures
        s.block_current(queue, deadline).wf(),
{
    let c = s.current->0;
    let r = s.block_current(queue, deadline);
    lemma_ids_kept(s, r, c);
    lemma_none_running(s, r, c);
    lemma_ready_kept(s, r, c);
    match deadline {
        Some(d) => lemma_sleepers_gain(s, r, c, d),
        None => lemma_sleepers_kept(s, r, c),
    }
    lemma_queues_gain(s, r, c, queue);
}

/// The running task ends: the invariant holds, with nobody running.
pub proof fn lemma_retire_current_wf(s: State)
    requires
        s.wf(),
        s.current is Some,
    ensures
        s.retire_current().wf(),
{
    let c = s.current->0;
    let r = s.retire_current();
    lemma_ids_kept(s, r, c);
    lemma_none_running(s, r, c);
    lemma_ready_kept(s, r, c);
    lemma_sleepers_kept(s, r, c);
    lemma_queues_kept(s, r, c);
}

/// With nobody running, handing the processor to the head of the ready queue
/// keeps the invariant.
pub proof fn lemma_dispatch_wf(s: State)
    requires
        s.wf(),
        s.current is None,
    ensures
        s.dispatch().wf(),
{
    let r = s.dispatch();
    if s.ready.len() > 0 {
        let next = s.ready[0];
        assert(s.has_task(s.ready[0]));
        lemma_ids_kept(s, r, next);
        assert(r.current_ok()) by {
            assert forall|i: int|
                0 <= i < r.tasks.len() && (#[trigger] r.tasks[i]).state is Running implies r.current
                == Some(i as usize) by {
                if i != next {
                    assert(s.tasks[i].state is Running);
                }
            }
        }
        assert(r.ready_ok()) by {
            lemma_drop_head(s.ready);
            assert forall|k: int| 0 <= k < r.ready.len() implies r.has_task(#[trigger] r.ready[k])
                && r.tasks[r.ready[k] as int].state is Ready by {
                assert(r.ready[k] == s.ready[k + 1]);
                assert(s.has_task(s.ready[k + 1]));
                assert(r.ready.contains(r.ready[k]));
            }
            assert forall|i: int|
                0 <= i < r.tasks.len() && (#[trigger] r.tasks[i]).state is Ready implies r.ready.contains(
                i as usize,
            ) by {
                assert(s.tasks[i].state is Ready);
            }
        }
        lemma_sleepers_kept(s, r, next);
        lemma_queues_kept(s, r, next);
    } else {
        assert(r.current_ok()) by {
            assert forall|i: int|
                0 <= i < r.tasks.len() && (#[trigger] r.tasks[i]).state is Running implies r.current
                == Some(i as usize) by {
                assert(s.tasks[i].state is Running);
            }
        }
    }
}

/// A firing timer keeps the invariant.
pub proof fn lemma_expire_head_wf(s: State)
    requires
        s.wf(),
        s.sleepers.len() > 0,
    ensures
        s.expire_head().wf(),
{
    let t = s.sleepers[0].task;
    let r = s.expire_head();
    assert(s.has_task(s.sleepers[0].task));
    assert(s.tasks[t as int].state.deadline() is Some);
    lemma_ids_kept(s, r, t);
    lemma_current_kept(s, r, t);
    lemma_ready_gains(s, r, t);
    assert(r.sleepers_ok()) by {
        lemma_remove_timer_at(s.sleepers, 0);
        assert(s.sleepers.drop_first() =~= s.sleepers.remove(0));
        lemma_sleepers_lose(s, r, t);
    }
    match s.tasks[t as int].state {
        TaskState::Waiting { queue, .. } => {
            lemma_queues_lose(s, r, t, queue);
        },
        _ => {
            lemma_queues_kept(s, r, t);
        },
    }
}

/// Notifying the oldest waiter keeps the invariant.
pub proof fn lemma_wake_head_wf(s: State, queue: usize)
    requires
        s.wf(),
        s.has_queue(queue),
        s.queues[queue as int].len() > 0,
    ensures
        s.wake_head(queue).wf(),
{
    let t = s.queues[queue as int][0];
    let r = s.wake_head(queue);
    assert(s.has_task(s.queues[queue as int][0]));
    lemma_ids_kept(s, r, t);
    lemma_current_kept(s, r, t);
    lemma_ready_gains(s, r, t);
    lemma_sleepers_lose(s, r, t);
    lemma_drop_head(s.queues[queue as int]);
    lemma_queues_lose(s, r, t, queue);
}

/// Firing every due timer keeps the invariant.
pub proof fn lemma_expire_due_wf(s: State)
    requires
        s.wf(),
    ensures
        s.expire_due().wf(),
    decreases s.sleepers.len(),
{
    if s.sleepers.len() > 0 && s.sleepers[0].deadline <= s.now {
        lemma_expire_head_wf(s);
        lemma_expire_due_wf(s.expire_head());
    }
}

/// Notifying waiters keeps the invariant.
pub proof fn lemma_wake_many_wf(s: State, queue: usize, count: nat)
    requires
        s.wf(),
    ensures
        s.wake_many(queue, count).wf(),
    decreases count,
{
    if count > 0 && s.has_queue(queue) && s.queues[queue as int].len() > 0 {
        lemma_wake_head_wf(s, queue);
        lemma_wake_many_wf(s.wake_head(queue), queue, (count - 1) as nat);
    }
}

/// A yield keeps the invariant.
pub proof fn lemma_yield_now_wf(s: State)
    requires
        s.wf(),
    ensures
        s.yield_now().wf(),
{
    if s.ready.len() == 0 {
    } else if s.current is Some {
        lemma_requeue_current_wf(s);
        lemma_dispatch_wf(s.requeue_current());
    } else {
        lemma_dispatch_wf(s);
    }
}

/// A sleep keeps the invariant.
pub proof fn lemma_sleep_until_wf(s: State, deadline: u64)
    requires
        s.wf(),
    ensures
        s.sleep_until(deadline).wf(),
{
    if deadline <= s.now {
        lemma_yield_now_wf(s);
    } else if s.current is Some {
        lemma_sleep_current_wf(s, deadline);
        lemma_dispatch_wf(s.sleep_current(deadline));
    }
}

/// The end of a task keeps the invariant.
pub proof fn lemma_exit_wf(s: State)
    requires
        s.wf(),
    ensures
        s.exit().wf(),
{
    if s.current is Some {
        lemma_retire_current_wf(s);
        lemma_dispatch_wf(s.retire_current());
    }
}

/// A tick keeps the invariant.
pub proof fn lemma_tick_wf(s: State, now: u64)
    requires
        s.wf(),
    ensures
        s.tick(now).wf(),
{
    let advanced = State { now: if now > s.now { now } else { s.now }, ..s };
    assert(advanced.tasks == s.tasks && advanced.ready == s.ready && advanced.sleepers
        == s.sleepers && advanced.queues == s.queues && advanced.current == s.current);
    assert(advanced.wf());
    lemma_expire_due_wf(advanced);
}

/// A wait keeps the invariant.
pub proof fn lemma_wait_wf(s: State, queue: usize)
    requires
        s.wf(),
        s.has_queue(queue),
    ensures
        s.wait(queue).wf(),
{
    if s.current is Some {
        lemma_block_current_wf(s, queue, None);
        lemma_dispatch_wf(s.block_current(queue, None));
    }
}

/// A timed wait keeps the invariant.
pub proof fn lemma_wait_deadline_until_wf(s: State, queue: usize, deadline: u64, satisfied: bool)
    requires
        s.wf(),
        s.has_queue(queue),
    ensures
        s.wait_deadline_until(queue, deadline, satisfied).wf(),
{
    if !(satisfied || s.now >= deadline || s.current is None) {
        lemma_block_current_wf(s, queue, Some(deadline));
        lemma_dispatch_wf(s.block_current(queue, Some(deadline)));
    }
}

/// `notify_one` keeps the invariant.
pub proof fn lemma_notify_one_wf(s: State, queue: usize, resched: bool)
    requires
        s.wf(),
    ensures
        s.notify_one(queue, resched).wf(),
{
    if s.has_queue(queue) && s.queues[queue as int].len() > 0 {
        lemma_wake_head_wf(s, queue);
        lemma_yield_now_wf(s.wake_head(queue));
    } else {
        lemma_yield_now_wf(s);
    }
}

/// `notify_all` keeps the invariant.
pub proof fn lemma_notify_all_wf(s: State, queue: usize, resched: bool)
    requires
        s.wf(),
    ensures
        s.notify_all(queue, resched).wf(),
{
    let n = s.queues[queue as int].len();
    lemma_wake_many_wf(s, queue, n);
    lemma_yield_now_wf(s.wake_many(queue, n));
}

// ----- no step but a switch reads or writes the interrupt flag -----

/// Handing over the processor does not depend on the flag before it.
pub proof fn lemma_dispatch_irq(s: State, irq: bool)
    ensures
        s.with_irq(irq).dispatch() == s.dispatch(),
{
    assert(s.with_irq(irq).dispatch() =~= s.dispatch());
}

/// A firing timer leaves the flag alone.
pub proof fn lemma_expire_due_irq(s: State, irq: bool)
    ensures
        s.with_irq(irq).expire_due() == s.expire_due().with_irq(irq),
    decreases s.sleepers.len(),
{
    if s.sleepers.len() > 0 && s.sleepers[0].deadline <= s.now {
        assert(s.with_irq(irq).expire_head() =~= s.expire_head().with_irq(irq));
        lemma_expire_due_irq(s.expire_head(), irq);
    }
}

/// A notification leaves the flag alone.
pub proof fn lemma_wake_many_irq(s: State, queue: usize, count: nat, irq: bool)
    ensures
        s.with_irq(irq).wake_many(queue, count) == s.wake_many(queue, count).with_irq(irq),
    decreases count,
{
    if count > 0 && s.has_queue(queue) && s.queues[queue as int].len() > 0 {
        assert(s.with_irq(irq).wake_head(queue) =~= s.wake_head(queue).with_irq(irq));
        lemma_wake_many_irq(s.wake_head(queue), queue, (count - 1) as nat, irq);
    }
}

/// Notifying every waiter, one at a time: with a waiter left, the oldest is
/// woken and the rest follow.
pub proof fn lemma_wake_all_step(s: State, queue: usize)
    requires
        s.has_queue(queue),
    ensures
        s.queues[queue as int].len() > 0 ==> s.wake_many(queue, s.queues[queue as int].len())
            == s.wake_head(queue).wake_many(
            queue,
            s.wake_head(queue).queues[queue as int].len(),
        ),
        s.queues[queue as int].len() == 0 ==> s.wake_many(queue, 0) == s,
{
}

/// Waking a waiter leaves the flag alone.
pub proof fn lemma_wake_head_irq(s: State, queue: usize, irq: bool)
    ensures
        s.with_irq(irq).wake_head(queue) == s.wake_head(queue).with_irq(irq),
{
    assert(s.with_irq(irq).wake_head(queue) =~= s.wake_head(queue).with_irq(irq));
}

} // verus!
