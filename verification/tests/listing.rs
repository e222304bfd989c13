use scheduler::job::Job;
use scheduler::listing::{comes_before, insert_listed};

fn job(id: u128, due: i64, priority: u8) -> Job {
    Job::with_id(id, due, priority, "d", "f", 3).unwrap()
}

#[test]
fn earlier_comes_before_later() {
    assert!(comes_before(&job(9, 10, 0), &job(1, 11, 255)));
    assert!(!comes_before(&job(1, 11, 255), &job(9, 10, 0)));
}

#[test]
fn at_the_same_time_higher_priority_comes_first() {
    assert!(comes_before(&job(9, 10, 5), &job(1, 10, 4)));
    assert!(!comes_before(&job(1, 10, 4), &job(9, 10, 5)));
}

#[test]
fn at_the_same_rank_the_smaller_id_comes_first() {
    assert!(comes_before(&job(1, 10, 5), &job(2, 10, 5)));
    assert!(!comes_before(&job(2, 10, 5), &job(1, 10, 5)));
    assert!(!comes_before(&job(1, 10, 5), &job(1, 10, 5)));
}

#[test]
fn a_job_is_put_at_its_place() {
    let mut listed = Vec::new();
    assert_eq!(insert_listed(&mut listed, job(5, 20, 1)), 0);
    assert_eq!(insert_listed(&mut listed, job(6, 10, 1)), 0);
    assert_eq!(insert_listed(&mut listed, job(7, 30, 1)), 2);
    assert_eq!(insert_listed(&mut listed, job(8, 20, 2)), 1);
    assert_eq!(insert_listed(&mut listed, job(4, 20, 1)), 2);
    assert_eq!(insert_listed(&mut listed, job(9, 20, 0)), 4);
    let order: Vec<u128> = listed.iter().map(|j| j.id).collect();
    assert_eq!(order, vec![6, 8, 4, 5, 9, 7]);
}
