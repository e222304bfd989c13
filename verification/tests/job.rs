use scheduler::job::{Job, RetryOutcome, Status, ValidationError, MAX_RETRY_LIMIT};

#[test]
fn new_job_is_pending_and_untried() {
    let job = Job::new(1_700_000_000, 7, "Backup Database", "backup_fn", 3).unwrap();
    assert_eq!(job.execution_time, 1_700_000_000);
    assert_eq!(job.priority, 7);
    assert_eq!(job.description, "Backup Database");
    assert_eq!(job.function, "backup_fn");
    assert_eq!(job.status, Status::Pending);
    assert_eq!(job.retry_count, 0);
    assert_eq!(job.max_retries, 3);
}

#[test]
fn with_id_keeps_the_identifier() {
    let job = Job::with_id(42, 10, 1, "d", "f", 0).unwrap();
    assert_eq!(job.id, 42);
    assert_eq!(job.status, Status::Pending);
    assert_eq!(job.retry_count, 0);
    assert_eq!(job.max_retries, 0);
}

#[test]
fn new_ids_are_random_version_four_uuids() {
    let a = Job::new(1, 0, "d", "f", 0).unwrap();
    let b = Job::new(1, 0, "d", "f", 0).unwrap();
    assert_ne!(a.id, b.id);
    for id in [a.id, b.id] {
        assert_eq!((id >> 76) & 0xf, 4);
        assert_eq!((id >> 62) & 0x3, 2);
        assert_eq!(uuid::Uuid::from_u128(id).get_version_num(), 4);
    }
}

#[test]
fn zero_or_negative_time_is_refused() {
    assert_eq!(Job::new(0, 1, "d", "f", 1), Err(ValidationError::NonPositiveTime));
    assert_eq!(Job::new(-5, 1, "d", "f", 1), Err(ValidationError::NonPositiveTime));
    assert_eq!(Job::new(i64::MIN, 1, "d", "f", 1), Err(ValidationError::NonPositiveTime));
    assert!(Job::new(1, 1, "d", "f", 1).is_ok());
    assert!(Job::new(i64::MAX, 1, "d", "f", 1).is_ok());
}

#[test]
fn too_many_retries_are_refused() {
    assert_eq!(MAX_RETRY_LIMIT, 100);
    assert!(Job::new(1, 1, "d", "f", 100).is_ok());
    assert_eq!(Job::new(1, 1, "d", "f", 101), Err(ValidationError::TooManyRetries));
    assert_eq!(Job::new(1, 1, "d", "f", u32::MAX), Err(ValidationError::TooManyRetries));
}

#[test]
fn empty_function_is_refused() {
    assert_eq!(Job::new(1, 1, "d", "", 1), Err(ValidationError::EmptyFunction));
}

#[test]
fn empty_description_is_refused() {
    assert_eq!(Job::new(1, 1, "", "f", 1), Err(ValidationError::EmptyDescription));
}

#[test]
fn the_first_broken_rule_is_reported() {
    assert_eq!(Job::new(0, 1, "", "", 1000), Err(ValidationError::NonPositiveTime));
    assert_eq!(Job::new(1, 1, "", "", 1000), Err(ValidationError::TooManyRetries));
    assert_eq!(Job::new(1, 1, "", "", 1), Err(ValidationError::EmptyFunction));
    assert_eq!(Job::with_id(9, 0, 1, "", "", 1000), Err(ValidationError::NonPositiveTime));
    assert_eq!(Job::with_id(9, 1, 1, "", "", 1000), Err(ValidationError::TooManyRetries));
    assert_eq!(Job::with_id(9, 1, 1, "", "", 1), Err(ValidationError::EmptyFunction));
    assert_eq!(Job::with_id(9, 1, 1, "", "f", 1), Err(ValidationError::EmptyDescription));
}

#[test]
fn start_and_complete_set_the_status_only() {
    let mut job = Job::with_id(5, 10, 2, "d", "f", 3).unwrap();
    let before = job.clone();
    job.start();
    assert_eq!(job, Job { status: Status::Running, ..before.clone() });
    job.complete();
    assert_eq!(job, Job { status: Status::Completed, ..before });
}

#[test]
fn clone_is_equal() {
    let job = Job::with_id(5, 10, 2, "some description", "some_fn", 3).unwrap();
    assert_eq!(job.clone(), job);
}

#[test]
fn failures_are_counted_until_the_bound_is_reached() {
    let mut job = Job::with_id(5, 10, 2, "d", "f", 3).unwrap();
    let before = job.clone();
    assert_eq!(job.fail_and_retry(), RetryOutcome::WillRetry);
    assert_eq!(job, Job { retry_count: 1, status: Status::Pending, ..before.clone() });
    assert_eq!(job.fail_and_retry(), RetryOutcome::WillRetry);
    assert_eq!(job, Job { retry_count: 2, status: Status::Pending, ..before.clone() });
    assert_eq!(job.fail_and_retry(), RetryOutcome::Exhausted);
    assert_eq!(job, Job { retry_count: 3, status: Status::Failed, ..before });
}

#[test]
fn a_running_job_that_fails_is_pending_again() {
    let mut job = Job::with_id(5, 10, 2, "d", "f", 2).unwrap();
    job.start();
    assert_eq!(job.fail_and_retry(), RetryOutcome::WillRetry);
    assert_eq!(job.status, Status::Pending);
    assert_eq!(job.retry_count, 1);
}

#[test]
fn one_allowed_attempt_fails_for_good_at_once() {
    let mut job = Job::with_id(5, 10, 2, "d", "f", 1).unwrap();
    assert_eq!(job.fail_and_retry(), RetryOutcome::Exhausted);
    assert_eq!(job.status, Status::Failed);
    assert_eq!(job.retry_count, 1);
}

#[test]
fn no_allowed_attempt_still_counts_the_failure() {
    let mut job = Job::with_id(5, 10, 2, "d", "f", 0).unwrap();
    assert_eq!(job.fail_and_retry(), RetryOutcome::Exhausted);
    assert_eq!(job.status, Status::Failed);
    assert_eq!(job.retry_count, 1);
}

#[test]
fn the_same_state_gives_the_same_decision() {
    let job = Job::with_id(5, 10, 2, "d", "f", 2).unwrap();
    let mut a = job.clone();
    let mut b = job.clone();
    assert_eq!(a.fail_and_retry(), b.fail_and_retry());
    assert_eq!(a, b);
    assert_eq!(a.fail_and_retry(), b.fail_and_retry());
    assert_eq!(a, b);
}
