//! Facts about the sequences that the queues are made of.

use vstd::prelude::*;
use crate::state::{arm_timer, cancel_timer, distinct_tasks, due_count, has_timer,
    sorted_by_deadline, timer_index, without_task, TimerEntry};

verus! {

/// Appending an element that a duplicate-free list lacks.
pub proof fn lemma_push_fresh(list: Seq<usize>, x: usize)
    requires
        list.no_duplicates(),
        !list.contains(x),
    ensures
        list.push(x).no_duplicates(),
        forall|y: usize| list.push(x).contains(y) <==> (list.contains(y) || y == x),
{
    let p = list.push(x);
    assert forall|i: int, j: int| 0 <= i < p.len() && 0 <= j < p.len() && i != j implies p[i]
        != p[j] by {
        if i < list.len() {
            assert(list.contains(list[i]));
        }
        if j < list.len() {
            assert(list.contains(list[j]));
        }
    }
    assert forall|y: usize| p.contains(y) <==> (list.contains(y) || y == x) by {
        if p.contains(y) {
            let k = choose|k: int| 0 <= k < p.len() && p[k] == y;
            if k < list.len() {
                assert(list[k] == y);
            }
        }
        if list.contains(y) {
            let k = choose|k: int| 0 <= k < list.len() && list[k] == y;
            assert(p[k] == y);
        }
        if y == x {
            assert(p[list.len() as int] == y);
        }
    }
}

/// Taking the element at `i` out of a duplicate-free list.
pub proof fn lemma_remove_at(list: Seq<usize>, i: int)
    requires
        list.no_duplicates(),
        0 <= i < list.len(),
    ensures
        list.remove(i).no_duplicates(),
        forall|y: usize| list.remove(i).contains(y) <==> (list.contains(y) && y != list[i]),
        without_task(list, list[i]) == list.remove(i),
{
    let r = list.remove(i);
    assert forall|y: usize| r.contains(y) <==> (list.contains(y) && y != list[i]) by {
        if r.contains(y) {
            let k = choose|k: int| 0 <= k < r.len() && r[k] == y;
            if k < i {
                assert(list[k] == y);
            } else {
                assert(list[k + 1] == y);
            }
        }
        if list.contains(y) && y != list[i] {
            let k = choose|k: int| 0 <= k < list.len() && list[k] == y;
            if k < i {
                assert(r[k] == y);
            } else {
                assert(r[k - 1] == y);
            }
        }
    }
    assert(list.contains(list[i]));
    let j = list.index_of(list[i]);
    assert(j == i);
}

/// Taking the head off a duplicate-free list.
pub proof fn lemma_drop_head(list: Seq<usize>)
    requires
        list.no_duplicates(),
        list.len() > 0,
    ensures
        list.drop_first().no_duplicates(),
        forall|y: usize| list.drop_first().contains(y) <==> (list.contains(y) && y != list[0]),
        list.drop_first() == list.remove(0),
        without_task(list, list[0]) == list.drop_first(),
{
    assert(list.drop_first() =~= list.remove(0));
    lemma_remove_at(list, 0);
}

/// `due_count` names a position, everything before it is due, and what
/// stands at it is not.
pub proof fn lemma_due_count(timers: Seq<TimerEntry>, instant: u64)
    ensures
        due_count(timers, instant) <= timers.len(),
        forall|k: int|
            0 <= k < due_count(timers, instant) ==> (#[trigger] timers[k]).deadline <= instant,
        due_count(timers, instant) < timers.len() ==> timers[due_count(
            timers,
            instant,
        ) as int].deadline > instant,
    decreases timers.len(),
{
    if timers.len() == 0 || timers[0].deadline > instant {
    } else {
        let rest = timers.drop_first();
        lemma_due_count(rest, instant);
        let n = due_count(rest, instant) as int;
        assert forall|k: int| 0 <= k < n + 1 implies (#[trigger] timers[k]).deadline
            <= instant by {
            if k > 0 {
                assert(timers[k] == rest[k - 1]);
            }
        }
        if n + 1 < timers.len() {
            assert(timers[n + 1] == rest[n]);
        }
    }
}

/// In a sorted queue everything from `due_count` on is not yet due.
pub proof fn lemma_due_count_sorted(timers: Seq<TimerEntry>, instant: u64)
    requires
        sorted_by_deadline(timers),
    ensures
        forall|k: int|
            due_count(timers, instant) <= k < timers.len() ==> (#[trigger] timers[k]).deadline
                > instant,
{
    lemma_due_count(timers, instant);
}

/// A position that splits the queue into due and not due is `due_count`.
pub proof fn lemma_due_count_is(timers: Seq<TimerEntry>, instant: u64, n: int)
    requires
        0 <= n <= timers.len(),
        forall|k: int| 0 <= k < n ==> (#[trigger] timers[k]).deadline <= instant,
        n < timers.len() ==> timers[n].deadline > instant,
    ensures
        due_count(timers, instant) == n,
    decreases timers.len(),
{
    if timers.len() == 0 || timers[0].deadline > instant {
        if n > 0 {
            assert(timers[0].deadline <= instant);
        }
    } else {
        let rest = timers.drop_first();
        assert(n > 0);
        assert forall|k: int| 0 <= k < n - 1 implies (#[trigger] rest[k]).deadline <= instant by {
            assert(rest[k] == timers[k + 1]);
        }
        if n - 1 < rest.len() {
            assert(rest[n - 1] == timers[n]);
        }
        lemma_due_count_is(rest, instant, n - 1);
    }
}

/// Putting `entry` at a position that splits a sorted queue into what is due
/// no later and what is due later keeps the queue sorted.
proof fn lemma_insert_sorted(timers: Seq<TimerEntry>, n: int, entry: TimerEntry)
    requires
        sorted_by_deadline(timers),
        0 <= n <= timers.len(),
        forall|k: int| 0 <= k < n ==> (#[trigger] timers[k]).deadline <= entry.deadline,
        forall|k: int| n <= k < timers.len() ==> (#[trigger] timers[k]).deadline > entry.deadline,
    ensures
        sorted_by_deadline(timers.insert(n, entry)),
{
    let r = timers.insert(n, entry);
    assert forall|a: int, b: int| 0 <= a <= b < r.len() implies r[a].deadline
        <= r[b].deadline by {
        if a < n {
            assert(r[a] == timers[a]);
        } else if a > n {
            assert(r[a] == timers[a - 1]);
        }
        if b < n {
            assert(r[b] == timers[b]);
        } else if b > n {
            assert(r[b] == timers[b - 1]);
        }
    }
}

/// Putting in a timer for a task that has none keeps the tasks distinct and
/// adds exactly that task.
proof fn lemma_insert_distinct(timers: Seq<TimerEntry>, n: int, entry: TimerEntry)
    requires
        distinct_tasks(timers),
        0 <= n <= timers.len(),
        !has_timer(timers, entry.task),
    ensures
        distinct_tasks(timers.insert(n, entry)),
        forall|t: usize|
            has_timer(timers.insert(n, entry), t) <==> (has_timer(timers, t) || t == entry.task),
{
    let r = timers.insert(n, entry);
    assert forall|a: int, b: int| 0 <= a < b < r.len() implies (#[trigger] r[a]).task != (
    #[trigger] r[b]).task by {
        if a < n {
            assert(r[a] == timers[a]);
        } else if a > n {
            assert(r[a] == timers[a - 1]);
        }
        if b < n {
            assert(r[b] == timers[b]);
        } else if b > n {
            assert(r[b] == timers[b - 1]);
        }
        if a == n {
            assert(timers[b - 1].task != entry.task);
        }
        if b == n {
            assert(timers[a].task != entry.task);
        }
    }
    assert forall|t: usize| has_timer(r, t) <==> (has_timer(timers, t) || t == entry.task) by {
        if has_timer(r, t) {
            let k = choose|k: int| 0 <= k < r.len() && #[trigger] r[k].task == t;
            if k < n {
                assert(timers[k].task == t);
            } else if k > n {
                assert(timers[k - 1].task == t);
            }
        }
        if has_timer(timers, t) {
            let k = choose|k: int| 0 <= k < timers.len() && #[trigger] timers[k].task == t;
            if k < n {
                assert(r[k].task == t);
            } else {
                assert(r[k + 1].task == t);
            }
        }
        if t == entry.task {
            assert(r[n].task == t);
        }
    }
}

/// What a queue holds after an insertion: the new entry and the old ones.
proof fn lemma_insert_members(timers: Seq<TimerEntry>, n: int, entry: TimerEntry)
    requires
        0 <= n <= timers.len(),
    ensures
        forall|k: int|
            0 <= k < timers.insert(n, entry).len() ==> (#[trigger] timers.insert(n, entry)[k]
                == entry || timers.contains(timers.insert(n, entry)[k])),
        timers.insert(n, entry).contains(entry),
{
    let r = timers.insert(n, entry);
    assert(r[n] == entry);
    assert forall|k: int| 0 <= k < r.len() implies (#[trigger] r[k] == entry || timers.contains(
        r[k],
    )) by {
        if k < n {
            assert(r[k] == timers[k]);
        } else if k > n {
            assert(r[k] == timers[k - 1]);
        }
    }
}

/// Arming a timer for a task that has none keeps the queue sorted and its
/// tasks distinct, and adds exactly that timer.
pub proof fn lemma_arm_timer(timers: Seq<TimerEntry>, entry: TimerEntry)
    requires
        sorted_by_deadline(timers),
        distinct_tasks(timers),
        !has_timer(timers, entry.task),
    ensures
        sorted_by_deadline(arm_timer(timers, entry)),
        distinct_tasks(arm_timer(timers, entry)),
        arm_timer(timers, entry).len() == timers.len() + 1,
        forall|t: usize|
            has_timer(arm_timer(timers, entry), t) <==> (has_timer(timers, t) || t == entry.task),
        forall|k: int|
            0 <= k < arm_timer(timers, entry).len() ==> (#[trigger] arm_timer(timers, entry)[k]
                == entry || timers.contains(arm_timer(timers, entry)[k])),
        arm_timer(timers, entry).contains(entry),
{
    let n = due_count(timers, entry.deadline) as int;
    lemma_due_count(timers, entry.deadline);
    lemma_due_count_sorted(timers, entry.deadline);
    lemma_insert_sorted(timers, n, entry);
    lemma_insert_distinct(timers, n, entry);
    lemma_insert_members(timers, n, entry);
}

/// Taking the timer at `i` out of the queue keeps it sorted and its tasks
/// distinct, and removes exactly the timer of that task.
pub proof fn lemma_remove_timer_at(timers: Seq<TimerEntry>, i: int)
    requires
        sorted_by_deadline(timers),
        distinct_tasks(timers),
        0 <= i < timers.len(),
    ensures
        sorted_by_deadline(timers.remove(i)),
        distinct_tasks(timers.remove(i)),
        forall|t: usize|
            has_timer(timers.remove(i), t) <==> (has_timer(timers, t) && t != timers[i].task),
        forall|k: int|
            0 <= k < timers.remove(i).len() ==> timers.contains(#[trigger] timers.remove(i)[k]),
        cancel_timer(timers, timers[i].task) == timers.remove(i),
{
    let r = timers.remove(i);
    assert forall|k: int| 0 <= k < r.len() implies timers.contains(#[trigger] r[k]) by {
        if k < i {
            assert(r[k] == timers[k]);
        } else {
            assert(r[k] == timers[k + 1]);
        }
    }
    assert forall|a: int, b: int| 0 <= a <= b < r.len() implies r[a].deadline
        <= r[b].deadline by {
        let a0 = if a < i { a } else { a + 1 };
        let b0 = if b < i { b } else { b + 1 };
        assert(r[a] == timers[a0] && r[b] == timers[b0]);
    }
    assert forall|a: int, b: int| 0 <= a < b < r.len() implies (#[trigger] r[a]).task != (
    #[trigger] r[b]).task by {
        let a0 = if a < i { a } else { a + 1 };
        let b0 = if b < i { b } else { b + 1 };
        assert(r[a] == timers[a0] && r[b] == timers[b0]);
    }
    assert forall|t: usize| has_timer(r, t) <==> (has_timer(timers, t) && t
        != timers[i].task) by {
        if has_timer(r, t) {
            let k = choose|k: int| 0 <= k < r.len() && #[trigger] r[k].task == t;
            let k0 = if k < i { k } else { k + 1 };
            assert(timers[k0].task == t);
            if k0 < i {
                assert(timers[k0].task != timers[i].task);
            } else {
                assert(timers[i].task != timers[k0].task);
            }
        }
        if has_timer(timers, t) && t != timers[i].task {
            let k = choose|k: int| 0 <= k < timers.len() && #[trigger] timers[k].task == t;
            if k < i {
                assert(r[k].task == t);
            } else {
                assert(r[k - 1].task == t);
            }
        }
    }
    assert(timers[i].task == timers[i].task);
    assert(has_timer(timers, timers[i].task));
    let j = timer_index(timers, timers[i].task);
    if j < i {
        assert(timers[j].task != timers[i].task);
    } else if j > i {
        assert(timers[i].task != timers[j].task);
    }
}

} // verus!
