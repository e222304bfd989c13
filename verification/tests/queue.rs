use scheduler::job::{Job, Status};
use scheduler::queue::{QueueError, QueueManager};
use std::sync::mpsc::channel;

fn job(id: u128, due: i64, priority: u8, description: &str) -> Job {
    Job::with_id(id, due, priority, description, "some_fn", 3).unwrap()
}

fn ids(jobs: &[Job]) -> Vec<u128> {
    jobs.iter().map(|j| j.id).collect()
}

#[test]
fn due_jobs_leave_in_order_and_later_ones_stay() {
    let t: i64 = 1_700_000_000;
    let mut q = QueueManager::new();
    q.push(job(1, t + 1, 5, "A")).unwrap();
    q.push(job(2, t + 3, 1, "B")).unwrap();
    q.push(job(3, t + 1, 1, "C")).unwrap();

    let first = q.pop_ready(t + 1);
    assert_eq!(first, vec![job(1, t + 1, 5, "A"), job(3, t + 1, 1, "C")]);
    assert_eq!(q.len(), 1);
    assert_eq!(q.peek(), Some(&job(2, t + 3, 1, "B")));

    let second = q.pop_ready(t + 3);
    assert_eq!(second, vec![job(2, t + 3, 1, "B")]);
    assert!(q.is_empty());
}

#[test]
fn every_change_hands_the_sink_one_snapshot() {
    let (tx, rx) = channel();
    let mut q = QueueManager::new();
    q.set_persistence(tx);
    q.push(job(1, 10, 1, "a")).unwrap();
    q.push(job(2, 20, 1, "b")).unwrap();
    q.push(job(3, 30, 1, "c")).unwrap();
    assert_eq!(q.pop(), Some(job(1, 10, 1, "a")));

    let received: Vec<Vec<Job>> = rx.try_iter().collect();
    assert_eq!(received.len(), 4);
    assert_eq!(ids(&received[0]), vec![1]);
    assert_eq!(ids(&received[1]), vec![1, 2]);
    assert_eq!(ids(&received[2]), vec![1, 2, 3]);
    assert_eq!(received[3], vec![job(2, 20, 1, "b"), job(3, 30, 1, "c")]);
    assert_eq!(received[3].len(), 2);
}

#[test]
fn setting_the_sink_sends_nothing() {
    let (tx, rx) = channel();
    let mut q = QueueManager::new();
    q.push(job(1, 10, 1, "a")).unwrap();
    q.set_persistence(tx);
    assert_eq!(rx.try_iter().count(), 0);
    assert_eq!(q.len(), 1);
}

#[test]
fn reading_the_store_sends_nothing() {
    let (tx, rx) = channel();
    let mut q = QueueManager::new();
    q.set_persistence(tx);
    q.push(job(1, 10, 1, "a")).unwrap();
    assert_eq!(rx.try_iter().count(), 1);
    let _ = q.peek();
    let _ = q.snapshot();
    let _ = q.len();
    let _ = q.is_empty();
    assert_eq!(rx.try_iter().count(), 0);
}

#[test]
fn a_batch_sends_one_snapshot_and_an_empty_batch_none() {
    let (tx, rx) = channel();
    let mut q = QueueManager::new();
    q.set_persistence(tx);
    q.push(job(1, 10, 1, "a")).unwrap();
    q.push(job(2, 10, 2, "b")).unwrap();
    q.push(job(3, 30, 1, "c")).unwrap();
    assert_eq!(rx.try_iter().count(), 3);

    assert!(q.pop_ready(9).is_empty());
    assert_eq!(rx.try_iter().count(), 0);

    assert_eq!(ids(&q.pop_ready(10)), vec![2, 1]);
    let received: Vec<Vec<Job>> = rx.try_iter().collect();
    assert_eq!(received, vec![vec![job(3, 30, 1, "c")]]);
}

#[test]
fn operations_that_change_nothing_send_nothing() {
    let (tx, rx) = channel();
    let mut q = QueueManager::new();
    q.set_persistence(tx);
    assert_eq!(q.pop(), None);
    assert_eq!(q.remove(7), None);
    assert!(!q.update_status(7, Status::Failed));
    assert!(q.pop_ready(i64::MAX).is_empty());
    assert_eq!(rx.try_iter().count(), 0);
}

#[test]
fn a_sink_that_went_away_does_not_disturb_the_store() {
    let (tx, rx) = channel();
    drop(rx);
    let mut q = QueueManager::new();
    q.set_persistence(tx);
    q.push(job(1, 10, 1, "a")).unwrap();
    q.push(job(2, 5, 1, "b")).unwrap();
    assert_eq!(q.pop(), Some(job(2, 5, 1, "b")));
    assert_eq!(q.len(), 1);
}

#[test]
fn a_second_sink_takes_the_place_of_the_first() {
    let (tx1, rx1) = channel();
    let (tx2, rx2) = channel();
    let mut q = QueueManager::new();
    q.set_persistence(tx1);
    q.push(job(1, 10, 1, "a")).unwrap();
    q.set_persistence(tx2);
    q.push(job(2, 20, 1, "b")).unwrap();
    assert_eq!(rx1.try_iter().count(), 1);
    let second: Vec<Vec<Job>> = rx2.try_iter().collect();
    assert_eq!(second.len(), 1);
    assert_eq!(ids(&second[0]), vec![1, 2]);
}

#[test]
fn a_new_store_is_empty() {
    let q = QueueManager::new();
    assert_eq!(q.len(), 0);
    assert!(q.is_empty());
    assert_eq!(q.peek(), None);
    assert!(q.snapshot().is_empty());
    let d = QueueManager::default();
    assert!(d.is_empty());
}

#[test]
fn a_second_job_with_the_same_id_is_refused() {
    let (tx, rx) = channel();
    let mut q = QueueManager::new();
    q.set_persistence(tx);
    assert_eq!(q.push(job(1, 10, 1, "first")), Ok(()));
    assert_eq!(q.push(job(1, 5, 9, "second")), Err(QueueError::DuplicateId));
    assert_eq!(q.len(), 1);
    assert_eq!(q.snapshot(), vec![job(1, 10, 1, "first")]);
    assert_eq!(q.peek(), Some(&job(1, 10, 1, "first")));
    assert_eq!(rx.try_iter().count(), 1);
}

#[test]
fn an_id_can_be_used_again_once_its_job_has_left() {
    let mut q = QueueManager::new();
    q.push(job(1, 10, 1, "first")).unwrap();
    assert_eq!(q.pop(), Some(job(1, 10, 1, "first")));
    assert_eq!(q.push(job(1, 20, 2, "second")), Ok(()));
    assert_eq!(q.pop(), Some(job(1, 20, 2, "second")));
}

#[test]
fn pop_takes_the_earliest_and_then_the_most_urgent() {
    let mut q = QueueManager::new();
    q.push(job(1, 30, 9, "late, urgent")).unwrap();
    q.push(job(2, 10, 1, "early, low")).unwrap();
    q.push(job(3, 10, 7, "early, high")).unwrap();
    q.push(job(4, 20, 0, "middle")).unwrap();
    q.push(job(5, 10, 3, "early, medium")).unwrap();
    let mut order = Vec::new();
    while let Some(j) = q.pop() {
        order.push(j.id);
    }
    assert_eq!(order, vec![3, 5, 2, 4, 1]);
    assert_eq!(q.pop(), None);
    assert!(q.is_empty());
}

#[test]
fn pop_serves_negative_and_extreme_times_in_order() {
    let mut q = QueueManager::new();
    let mut late = job(1, 1, 0, "a");
    late.execution_time = i64::MAX;
    let mut early = job(2, 1, 0, "b");
    early.execution_time = i64::MIN;
    let mut zero = job(3, 1, 255, "c");
    zero.execution_time = 0;
    q.push(late).unwrap();
    q.push(early).unwrap();
    q.push(zero).unwrap();
    assert_eq!(q.pop().unwrap().id, 2);
    assert_eq!(q.pop().unwrap().id, 3);
    assert_eq!(q.pop().unwrap().id, 1);
}

#[test]
fn peek_shows_what_pop_takes_and_changes_nothing() {
    let mut q = QueueManager::new();
    q.push(job(1, 20, 1, "a")).unwrap();
    q.push(job(2, 10, 1, "b")).unwrap();
    assert_eq!(q.peek(), Some(&job(2, 10, 1, "b")));
    assert_eq!(q.peek(), Some(&job(2, 10, 1, "b")));
    assert_eq!(q.len(), 2);
    assert_eq!(q.pop(), Some(job(2, 10, 1, "b")));
    assert_eq!(q.peek(), Some(&job(1, 20, 1, "a")));
}

#[test]
fn jobs_of_equal_rank_all_come_out() {
    let mut q = QueueManager::new();
    for id in 1..=5u128 {
        q.push(job(id, 10, 4, "same")).unwrap();
    }
    let mut out = ids(&q.pop_ready(10));
    out.sort();
    assert_eq!(out, vec![1, 2, 3, 4, 5]);
    assert!(q.is_empty());
}

#[test]
fn pop_ready_takes_exactly_the_due_jobs() {
    let mut q = QueueManager::new();
    q.push(job(1, 100, 1, "a")).unwrap();
    q.push(job(2, 50, 1, "b")).unwrap();
    q.push(job(3, 101, 9, "c")).unwrap();
    q.push(job(4, 50, 2, "d")).unwrap();
    q.push(job(5, 75, 0, "e")).unwrap();

    assert!(q.pop_ready(49).is_empty());
    assert_eq!(q.len(), 5);

    let batch = q.pop_ready(100);
    assert_eq!(ids(&batch), vec![4, 2, 5, 1]);
    assert!(batch.iter().all(|j| j.execution_time <= 100));
    assert_eq!(q.snapshot(), vec![job(3, 101, 9, "c")]);

    assert!(q.pop_ready(100).is_empty());
    assert_eq!(ids(&q.pop_ready(i64::MAX)), vec![3]);
    assert!(q.pop_ready(i64::MAX).is_empty());
}

#[test]
fn remove_takes_the_job_out_wherever_it_stands() {
    let mut q = QueueManager::new();
    q.push(job(1, 10, 1, "a")).unwrap();
    q.push(job(2, 20, 1, "b")).unwrap();
    q.push(job(3, 30, 1, "c")).unwrap();
    assert_eq!(q.remove(2), Some(job(2, 20, 1, "b")));
    assert_eq!(q.remove(2), None);
    assert_eq!(q.remove(9), None);
    assert_eq!(q.len(), 2);
    assert_eq!(ids(&q.snapshot()), vec![1, 3]);
    assert_eq!(q.remove(1), Some(job(1, 10, 1, "a")));
    assert_eq!(q.peek(), Some(&job(3, 30, 1, "c")));
}

#[test]
fn a_removed_job_never_comes_out_again() {
    let mut q = QueueManager::new();
    q.push(job(1, 10, 9, "a")).unwrap();
    q.push(job(2, 10, 1, "b")).unwrap();
    q.push(job(3, 20, 1, "c")).unwrap();
    assert!(q.remove(1).is_some());
    assert_ne!(q.peek().unwrap().id, 1);
    assert_eq!(ids(&q.pop_ready(10)), vec![2]);
    assert_eq!(q.pop().unwrap().id, 3);
    assert_eq!(q.pop(), None);
    assert!(q.pop_ready(i64::MAX).is_empty());
}

#[test]
fn update_status_changes_the_status_in_place() {
    let mut q = QueueManager::new();
    q.push(job(1, 10, 1, "a")).unwrap();
    q.push(job(2, 20, 1, "b")).unwrap();
    assert!(q.update_status(2, Status::Failed));
    assert!(!q.update_status(3, Status::Failed));
    assert_eq!(q.len(), 2);
    let expected = Job { status: Status::Failed, ..job(2, 20, 1, "b") };
    assert_eq!(q.snapshot(), vec![job(1, 10, 1, "a"), expected.clone()]);
    assert_eq!(q.pop(), Some(job(1, 10, 1, "a")));
    assert_eq!(q.pop(), Some(expected));
}

#[test]
fn update_status_sends_a_snapshot_with_the_new_status() {
    let (tx, rx) = channel();
    let mut q = QueueManager::new();
    q.push(job(1, 10, 1, "a")).unwrap();
    q.set_persistence(tx);
    assert!(q.update_status(1, Status::Running));
    let received: Vec<Vec<Job>> = rx.try_iter().collect();
    assert_eq!(received, vec![vec![Job { status: Status::Running, ..job(1, 10, 1, "a") }]]);
}

#[test]
fn snapshot_lists_by_time_then_priority_then_id() {
    let mut q = QueueManager::new();
    q.push(job(7, 20, 1, "g")).unwrap();
    q.push(job(3, 10, 1, "c")).unwrap();
    q.push(job(9, 10, 5, "i")).unwrap();
    q.push(job(2, 10, 5, "b")).unwrap();
    q.push(job(5, 20, 1, "e")).unwrap();
    q.push(job(1, 30, 0, "a")).unwrap();
    assert_eq!(ids(&q.snapshot()), vec![2, 9, 3, 5, 7, 1]);
    assert_eq!(q.len(), 6);
}

#[test]
fn snapshot_twice_is_the_same() {
    let mut q = QueueManager::new();
    for id in 0..40u128 {
        let due = 100 - (id as i64 % 7);
        q.push(job(id, due, (id % 3) as u8, "x")).unwrap();
    }
    let a = q.snapshot();
    let b = q.snapshot();
    assert_eq!(a, b);
    assert_eq!(a.len(), 40);
    assert_eq!(q.len(), 40);
}

#[test]
fn snapshot_follows_pushes_and_removals() {
    let mut q = QueueManager::new();
    assert_eq!(q.snapshot().len(), 0);
    q.push(job(1, 30, 1, "a")).unwrap();
    q.push(job(2, 10, 1, "b")).unwrap();
    q.push(job(3, 20, 1, "c")).unwrap();
    assert_eq!(ids(&q.snapshot()), vec![2, 3, 1]);
    q.remove(3);
    assert_eq!(ids(&q.snapshot()), vec![2, 1]);
    q.push(job(4, 5, 1, "d")).unwrap();
    assert_eq!(ids(&q.snapshot()), vec![4, 2, 1]);
    q.pop();
    assert_eq!(ids(&q.snapshot()), vec![2, 1]);
    let _ = q.push(job(2, 1, 1, "again"));
    assert_eq!(q.snapshot(), vec![job(2, 10, 1, "b"), job(1, 30, 1, "a")]);
    q.pop_ready(30);
    assert!(q.snapshot().is_empty());
}

#[test]
fn load_puts_every_job_in_and_sends_one_snapshot() {
    let (tx, rx) = channel();
    let mut q = QueueManager::new();
    q.set_persistence(tx);
    q.load_from_vec(vec![job(1, 30, 1, "a"), job(2, 10, 1, "b"), job(3, 20, 1, "c")]);
    assert_eq!(q.len(), 3);
    let received: Vec<Vec<Job>> = rx.try_iter().collect();
    assert_eq!(received.len(), 1);
    assert_eq!(ids(&received[0]), vec![2, 3, 1]);
    assert_eq!(q.pop(), Some(job(2, 10, 1, "b")));
}

#[test]
fn load_of_nothing_still_tells_the_sink() {
    let (tx, rx) = channel();
    let mut q = QueueManager::new();
    q.push(job(1, 30, 1, "a")).unwrap();
    q.set_persistence(tx);
    q.load_from_vec(Vec::new());
    let received: Vec<Vec<Job>> = rx.try_iter().collect();
    assert_eq!(received, vec![vec![job(1, 30, 1, "a")]]);
}

#[test]
fn in_a_load_the_later_job_of_an_id_wins() {
    let mut q = QueueManager::new();
    q.push(job(1, 30, 1, "held")).unwrap();
    q.load_from_vec(vec![job(2, 10, 1, "b"), job(1, 5, 2, "loaded"), job(2, 40, 3, "b again")]);
    assert_eq!(q.len(), 2);
    assert_eq!(q.snapshot(), vec![job(1, 5, 2, "loaded"), job(2, 40, 3, "b again")]);
    assert_eq!(q.pop(), Some(job(1, 5, 2, "loaded")));
    assert_eq!(q.pop(), Some(job(2, 40, 3, "b again")));
    assert_eq!(q.pop(), None);
}

#[test]
fn a_snapshot_can_be_loaded_back() {
    let mut q = QueueManager::new();
    for id in 0..20u128 {
        q.push(job(id, 50 - id as i64, (id % 4) as u8, "x")).unwrap();
    }
    let saved = q.snapshot();
    let mut restored = QueueManager::new();
    restored.load_from_vec(saved.clone());
    assert_eq!(restored.snapshot(), saved);
    assert_eq!(restored.len(), 20);
}

#[test]
fn many_jobs_come_out_sorted() {
    let mut q = QueueManager::new();
    let mut x: u64 = 12345;
    for id in 0..500u128 {
        x = x.wrapping_mul(6364136223846793005).wrapping_add(1442695040888963407);
        let due = 1 + (x >> 40) as i64 % 50;
        let priority = (x >> 20) as u8 % 5;
        q.push(job(id, due, priority, "x")).unwrap();
    }
    let snapshot = q.snapshot();
    assert_eq!(snapshot.len(), 500);
    for pair in snapshot.windows(2) {
        let (a, b) = (&pair[0], &pair[1]);
        assert!((a.execution_time, std::cmp::Reverse(a.priority), a.id)
            < (b.execution_time, std::cmp::Reverse(b.priority), b.id));
    }
    let batch = q.pop_ready(25);
    assert!(batch.iter().all(|j| j.execution_time <= 25));
    assert!(q.snapshot().iter().all(|j| j.execution_time > 25));
    assert_eq!(batch.len() + q.len(), 500);
    for pair in batch.windows(2) {
        let (a, b) = (&pair[0], &pair[1]);
        assert!((a.execution_time, std::cmp::Reverse(a.priority))
            <= (b.execution_time, std::cmp::Reverse(b.priority)));
    }
    let mut last: Option<Job> = None;
    while let Some(j) = q.pop() {
        if let Some(p) = &last {
            assert!((p.execution_time, std::cmp::Reverse(p.priority))
                <= (j.execution_time, std::cmp::Reverse(j.priority)));
        }
        last = Some(j);
    }
}
