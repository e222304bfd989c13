//! A unit of deferred work and its lifecycle.

use vstd::prelude::*;

verus! {

/// Largest `max_retries` a job may be created with.
pub const MAX_RETRY_LIMIT: u32 = 100;

/// Where a job stands in its lifecycle.
#[derive(Clone, Copy, Debug, PartialEq, Eq, Structural)]
pub enum Status {
    Pending,
    Running,
    Completed,
    Failed,
}

/// Why a job could not be created.
#[derive(Clone, Copy, Debug, PartialEq, Eq, Structural)]
pub enum ValidationError {
    /// The execution time is zero or negative.
    NonPositiveTime,
    /// `max_retries` is above [`MAX_RETRY_LIMIT`].
    TooManyRetries,
    /// The handler name is empty.
    EmptyFunction,
    /// The description is empty.
    EmptyDescription,
}

/// What a failed attempt leads to.
#[derive(Clone, Copy, Debug, PartialEq, Eq, Structural)]
pub enum RetryOutcome {
    /// The job is pending again and may be attempted once more.
    WillRetry,
    /// The retries are used up; the job has failed for good.
    Exhausted,
}

/// One unit of work.
#[derive(Debug, PartialEq, Eq)]
pub struct Job {
    /// Identifier, unique among the jobs of a process.
    pub id: u128,
    /// Earliest time the job may run, in seconds since the epoch.
    pub execution_time: i64,
    /// Rank among jobs due at the same time; higher runs first.
    pub priority: u8,
    /// Human-readable label.
    pub description: String,
    /// Name under which the handler is registered.
    pub function: String,
    /// Where the job stands in its lifecycle.
    pub status: Status,
    /// Failed attempts so far.
    pub retry_count: u32,
    /// Number of failed attempts after which the job is given up.
    pub max_retries: u32,
}

/// The mathematical value of a [`Job`].
pub ghost struct JobView {
    pub id: u128,
    pub execution_time: int,
    pub priority: nat,
    pub description: Seq<char>,
    pub function: Seq<char>,
    pub status: Status,
    pub retry_count: nat,
    pub max_retries: nat,
}

impl View for Job {
    type V = JobView;

    open spec fn view(&self) -> JobView {
        JobView {
            id: self.id,
            execution_time: self.execution_time as int,
            priority: self.priority as nat,
            description: self.description@,
            function: self.function@,
            status: self.status,
            retry_count: self.retry_count as nat,
            max_retries: self.max_retries as nat,
        }
    }
}

/// The ordering relation of the scheduler: `a` is served no later than `b`,
/// because it is due earlier, or due at the same time with at least `b`'s
/// priority.
pub open spec fn ranks_before(a: JobView, b: JobView) -> bool {
    a.execution_time < b.execution_time || (a.execution_time == b.execution_time && a.priority
        >= b.priority)
}

/// The order in which jobs are listed: the ordering relation, with the
/// smaller identifier first among jobs of equal due time and priority.
pub open spec fn listed_before(a: JobView, b: JobView) -> bool {
    a.execution_time < b.execution_time || (a.execution_time == b.execution_time && (a.priority
        > b.priority || (a.priority == b.priority && a.id < b.id)))
}

/// The first rule that the arguments of a new job break, if any.
pub open spec fn validation_failure(
    execution_time: int,
    description: Seq<char>,
    function: Seq<char>,
    max_retries: nat,
) -> Option<ValidationError> {
    if execution_time <= 0 {
        Some(ValidationError::NonPositiveTime)
    } else if max_retries > MAX_RETRY_LIMIT {
        Some(ValidationError::TooManyRetries)
    } else if function.len() == 0 {
        Some(ValidationError::EmptyFunction)
    } else if description.len() == 0 {
        Some(ValidationError::EmptyDescription)
    } else {
        None
    }
}

/// A job as it is just after creation: pending, with no failed attempt.
pub open spec fn fresh_job(
    id: u128,
    execution_time: int,
    priority: nat,
    description: Seq<char>,
    function: Seq<char>,
    max_retries: nat,
) -> JobView {
    JobView {
        id,
        execution_time,
        priority,
        description,
        function,
        status: Status::Pending,
        retry_count: 0,
        max_retries,
    }
}

/// The job after one more failed attempt: the attempt is counted, and the job
/// is pending again while the count stays below `max_retries`, failed otherwise.
pub open spec fn after_failure(j: JobView) -> JobView {
    JobView {
        retry_count: j.retry_count + 1,
        status: if j.retry_count + 1 < j.max_retries {
            Status::Pending
        } else {
            Status::Failed
        },
        ..j
    }
}

/// What [`after_failure`] reports of the attempt.
pub open spec fn failure_outcome(j: JobView) -> RetryOutcome {
    if j.retry_count + 1 < j.max_retries {
        RetryOutcome::WillRetry
    } else {
        RetryOutcome::Exhausted
    }
}

/// The job after `n` failed attempts in a row.
pub open spec fn after_failures(j: JobView, n: nat) -> JobView
    decreases n,
{
    if n == 0 {
        j
    } else {
        after_failure(after_failures(j, (n - 1) as nat))
    }
}

/// Failed attempts are counted one by one, and nothing but the count and the
/// status changes: after `n` of them in a row the job is pending where the
/// count is below `max_retries`, and failed otherwise.
pub proof fn lemma_failures_are_counted(j: JobView, n: nat)
    requires
        n >= 1,
    ensures
        after_failures(j, n) == (JobView {
            retry_count: j.retry_count + n,
            status: if j.retry_count + n < j.max_retries {
                Status::Pending
            } else {
                Status::Failed
            },
            ..j
        }),
    decreases n,
{
    if n > 1 {
        lemma_failures_are_counted(j, (n - 1) as nat);
    } else {
        assert(after_failures(j, 0) == j);
    }
}

/// The retry bound: a job with fewer failed attempts than `max_retries` is
/// pending again after each further failure but the last that `max_retries`
/// allows, and that last one marks it as failed, with a `retry_count` of
/// `max_retries`. A job that has never failed is thus tried `max_retries`
/// times.
pub proof fn lemma_retries_are_bounded(j: JobView)
    requires
        j.retry_count < j.max_retries,
    ensures
        forall|n: nat|
            1 <= n < j.max_retries - j.retry_count ==> {
                &&& (#[trigger] after_failures(j, n)).status == Status::Pending
                &&& failure_outcome(after_failures(j, (n - 1) as nat)) == RetryOutcome::WillRetry
            },
        ({
            let last = (j.max_retries - j.retry_count) as nat;
            &&& after_failures(j, last).status == Status::Failed
            &&& after_failures(j, last).retry_count == j.max_retries
            &&& failure_outcome(after_failures(j, (last - 1) as nat)) == RetryOutcome::Exhausted
        }),
{
    let last = (j.max_retries - j.retry_count) as nat;
    assert forall|n: nat| 1 <= n < last implies {
        &&& (#[trigger] after_failures(j, n)).status == Status::Pending
        &&& failure_outcome(after_failures(j, (n - 1) as nat)) == RetryOutcome::WillRetry
    } by {
        lemma_failures_are_counted(j, n);
        if n > 1 {
            lemma_failures_are_counted(j, (n - 1) as nat);
        }
    }
    lemma_failures_are_counted(j, last);
    if last > 1 {
        lemma_failures_are_counted(j, (last - 1) as nat);
    }
}

/// `id` has the fixed bits of a random (version 4) UUID read as a number:
/// version 4 and the RFC variant.
pub open spec fn is_random_uuid(id: u128) -> bool {
    id & 0x0000_0000_0000_f000_c000_0000_0000_0000 == 0x0000_0000_0000_4000_8000_0000_0000_0000
}

/// `uuid::Uuid::new_v4`, read as a number with `Uuid::as_u128`: a random
/// identifier. All that is claimed of it is the version and the variant that
/// `new_v4` sets in every identifier it makes; that two calls give different
/// identifiers is likely and not claimed. `new_v4` panics where the operating
/// system cannot supply random bytes.
#[verifier::external_body]
fn fresh_id() -> (id: u128)
    ensures
        is_random_uuid(id),
{
    uuid::Uuid::new_v4().as_u128()
}

impl Clone for Job {
    fn clone(&self) -> (r: Self)
        ensures
            r == *self,
    {
        Job {
            id: self.id,
            execution_time: self.execution_time,
            priority: self.priority,
            description: self.description.clone(),
            function: self.function.clone(),
            status: self.status,
            retry_count: self.retry_count,
            max_retries: self.max_retries,
        }
    }
}

impl Job {
    /// Creates a pending job under the given identifier, or says which rule
    /// the arguments break.
    pub fn with_id(
        id: u128,
        execution_time: i64,
        priority: u8,
        description: &str,
        function: &str,
        max_retries: u32,
    ) -> (r: Result<Job, ValidationError>)
        ensures
            match validation_failure(
                execution_time as int,
                description@,
                function@,
                max_retries as nat,
            ) {
                Some(e) => r == Err::<Job, ValidationError>(e),
                None => r is Ok && r->Ok_0@ == fresh_job(
                    id,
                    execution_time as int,
                    priority as nat,
                    description@,
                    function@,
                    max_retries as nat,
                ),
            },
    {
        if execution_time <= 0 {
            return Err(ValidationError::NonPositiveTime);
        }
        if max_retries > MAX_RETRY_LIMIT {
            return Err(ValidationError::TooManyRetries);
        }
        if function.is_empty() {
            return Err(ValidationError::EmptyFunction);
        }
        if description.is_empty() {
            return Err(ValidationError::EmptyDescription);
        }
        Ok(
            Job {
                id,
                execution_time,
                priority,
                description: description.to_string(),
                function: function.to_string(),
                status: Status::Pending,
                retry_count: 0,
                max_retries,
            },
        )
    }

    /// Creates a pending job under a fresh random identifier, or says which
    /// rule the arguments break.
    pub fn new(
        execution_time: i64,
        priority: u8,
        description: &str,
        function: &str,
        max_retries: u32,
    ) -> (r: Result<Job, ValidationError>)
        ensures
            match validation_failure(
                execution_time as int,
                description@,
                function@,
                max_retries as nat,
            ) {
                Some(e) => r == Err::<Job, ValidationError>(e),
                None => r is Ok && is_random_uuid(r->Ok_0.id) && r->Ok_0@ == fresh_job(
                    r->Ok_0.id,
                    execution_time as int,
                    priority as nat,
                    description@,
                    function@,
                    max_retries as nat,
                ),
            },
    {
        Job::with_id(fresh_id(), execution_time, priority, description, function, max_retries)
    }

    /// Marks the job as running.
    pub fn start(&mut self)
        ensures
            final(self)@ == (JobView { status: Status::Running, ..old(self)@ }),
    {
        self.status = Status::Running;
    }

    /// Marks the job as completed.
    pub fn complete(&mut self)
        ensures
            final(self)@ == (JobView { status: Status::Completed, ..old(self)@ }),
    {
        self.status = Status::Completed;
    }

    /// Records a failed attempt and decides whether the job is tried again.
    /// The counter must be able to take one more.
    pub fn fail_and_retry(&mut self) -> (outcome: RetryOutcome)
        requires
            old(self).retry_count < u32::MAX,
        ensures
            final(self)@ == after_failure(old(self)@),
            outcome == failure_outcome(old(self)@),
    {
        self.retry_count = self.retry_count + 1;
        if self.retry_count < self.max_retries {
            self.status = Status::Pending;
            RetryOutcome::WillRetry
        } else {
            self.status = Status::Failed;
            RetryOutcome::Exhausted
        }
    }
}

} // verus!
