use task_irq::queue::TaskQueue;
use task_irq::sleep_queue::SleepQueue;
use task_irq::state::TimerEntry;
use task_irq::timer::deadline_from;

fn items(queue: &TaskQueue) -> Vec<usize> {
    let mut out = Vec::new();
    let mut i = 0;
    while let Some(task) = queue.get(i) {
        out.push(task);
        i += 1;
    }
    out
}

fn timers(queue: &SleepQueue) -> Vec<(u64, usize)> {
    let mut out = Vec::new();
    let mut i = 0;
    while let Some(entry) = queue.get(i) {
        out.push((entry.deadline, entry.task));
        i += 1;
    }
    out
}

#[test]
fn task_queue_is_first_in_first_out() {
    let mut queue = TaskQueue::new();
    assert!(queue.is_empty());
    assert_eq!(queue.front(), None);
    assert_eq!(queue.pop_front(), None);
    queue.push_back(4);
    queue.push_back(2);
    queue.push_back(9);
    assert_eq!(queue.len(), 3);
    assert_eq!(queue.front(), Some(4));
    assert_eq!(queue.get(1), Some(2));
    assert_eq!(queue.get(3), None);
    assert_eq!(queue.pop_front(), Some(4));
    assert_eq!(queue.pop_front(), Some(2));
    assert_eq!(queue.pop_front(), Some(9));
    assert_eq!(queue.pop_front(), None);
    assert!(queue.is_empty());
}

#[test]
fn task_queue_remove_keeps_the_order_of_the_rest() {
    let mut queue = TaskQueue::new();
    for task in [5, 6, 7, 8] {
        queue.push_back(task);
    }
    assert!(queue.contains(7));
    assert!(queue.remove(7));
    assert!(!queue.contains(7));
    assert_eq!(items(&queue), vec![5, 6, 8]);
    assert!(queue.remove(5));
    assert_eq!(items(&queue), vec![6, 8]);
    assert!(queue.remove(8));
    assert_eq!(items(&queue), vec![6]);
}

#[test]
fn task_queue_remove_of_an_absent_task_changes_nothing() {
    let mut queue = TaskQueue::new();
    queue.push_back(1);
    queue.push_back(3);
    assert!(!queue.remove(2));
    assert_eq!(items(&queue), vec![1, 3]);
}

#[test]
fn sleep_queue_orders_by_deadline() {
    let mut queue = SleepQueue::new();
    assert_eq!(queue.next_deadline(), None);
    queue.arm(300, 1);
    queue.arm(100, 2);
    queue.arm(200, 3);
    assert_eq!(queue.len(), 3);
    assert_eq!(timers(&queue), vec![(100, 2), (200, 3), (300, 1)]);
    assert_eq!(queue.next_deadline(), Some(100));
    assert_eq!(queue.get(0), Some(TimerEntry { deadline: 100, task: 2 }));
    assert_eq!(queue.get(3), None);
}

#[test]
fn sleep_queue_keeps_equal_deadlines_in_order_of_arrival() {
    let mut queue = SleepQueue::new();
    queue.arm(50, 7);
    queue.arm(50, 3);
    queue.arm(10, 9);
    queue.arm(50, 5);
    queue.arm(60, 1);
    assert_eq!(timers(&queue), vec![(10, 9), (50, 7), (50, 3), (50, 5), (60, 1)]);
}

#[test]
fn sleep_queue_pops_only_what_is_due() {
    let mut queue = SleepQueue::new();
    queue.arm(10, 1);
    queue.arm(20, 2);
    assert_eq!(queue.pop_due(9), None);
    assert_eq!(queue.pop_due(10), Some(TimerEntry { deadline: 10, task: 1 }));
    assert_eq!(queue.pop_due(10), None);
    assert_eq!(queue.pop_due(u64::MAX), Some(TimerEntry { deadline: 20, task: 2 }));
    assert_eq!(queue.pop_due(u64::MAX), None);
    assert_eq!(queue.len(), 0);
}

#[test]
fn sleep_queue_cancel_disarms_one_timer() {
    let mut queue = SleepQueue::new();
    queue.arm(10, 1);
    queue.arm(20, 2);
    queue.arm(30, 3);
    assert!(queue.cancel(2));
    assert_eq!(timers(&queue), vec![(10, 1), (30, 3)]);
    assert!(!queue.cancel(2));
    assert_eq!(timers(&queue), vec![(10, 1), (30, 3)]);
    assert!(queue.cancel(1));
    assert!(queue.cancel(3));
    assert_eq!(queue.len(), 0);
}

#[test]
fn deadline_is_now_plus_duration() {
    assert_eq!(deadline_from(0, 0), 0);
    assert_eq!(deadline_from(1_000, 250), 1_250);
    assert_eq!(deadline_from(u64::MAX - 5, 5), u64::MAX);
}

#[test]
fn deadline_stops_at_the_end_of_the_clock() {
    assert_eq!(deadline_from(u64::MAX - 5, 6), u64::MAX);
    assert_eq!(deadline_from(u64::MAX, 1), u64::MAX);
    assert_eq!(deadline_from(7, u64::MAX), u64::MAX);
}
