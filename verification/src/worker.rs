//! The worker: handlers registered by name, and the running of a job by the
//! handler that its `function` names.

use crate::channel::{another, offer};
use crate::job::{
    after_failure, after_failures, lemma_retries_are_bounded, Job, JobView, Status,
};
use crate::tasks::backup_db::BackupDbTask;
use std::sync::mpsc::Sender;
use vstd::prelude::*;
use vstd::string::StringExecFns;

verus! {

/// Something that can be run with a channel for its messages.
trait Handler: Send {
    fn run(&self, log_tx: Sender<String>);
}

/// A handler made of a function that accepts any channel.
struct Callback<F: Fn(Sender<String>)> {
    f: F,
}

impl<F: Fn(Sender<String>)> Callback<F> {
    #[verifier::type_invariant]
    spec fn accepts_any_channel(self) -> bool {
        forall|tx: Sender<String>| self.f.requires((tx,))
    }
}

impl<F: Fn(Sender<String>) + Send> Handler for Callback<F> {
    fn run(&self, log_tx: Sender<String>) {
        proof {
            use_type_invariant(self);
        }
        (self.f)(log_tx);
    }
}

/// A handler under the name it was registered with.
struct Entry {
    name: String,
    handler: Box<dyn Handler>,
}

/// The entry that stands for a function under a name.
fn entry_for<F>(name: String, f: F) -> (entry: Entry) where F: Fn(Sender<String>) + Send + 'static
    requires
        forall|tx: Sender<String>| f.requires((tx,)),
    ensures
        entry.name == name,
{
    Entry { name, handler: Box::new(Callback { f }) }
}

/// The names of the entries.
spec fn names_of(entries: Seq<Entry>) -> Set<Seq<char>> {
    Set::new(
        |name: Seq<char>|
            exists|i: int| 0 <= i < entries.len() && (#[trigger] entries[i]).name@ == name,
    )
}

/// One more entry brings one more name.
proof fn lemma_names_after_push(entries: Seq<Entry>, entry: Entry)
    ensures
        names_of(entries.push(entry)) == names_of(entries).insert(entry.name@),
{
    let longer = entries.push(entry);
    assert forall|name: Seq<char>| names_of(entries).insert(entry.name@).contains(
        name,
    ) implies names_of(longer).contains(name) by {
        if name == entry.name@ {
            assert(longer[entries.len() as int].name@ == name);
        } else {
            let i = choose|i: int| 0 <= i < entries.len() && (#[trigger] entries[i]).name@ == name;
            assert(longer[i].name@ == name);
        }
    }
    assert forall|name: Seq<char>| names_of(longer).contains(name) implies names_of(
        entries,
    ).insert(entry.name@).contains(name) by {
        let i = choose|i: int| 0 <= i < longer.len() && (#[trigger] longer[i]).name@ == name;
        if i < entries.len() {
            assert(entries[i].name@ == name);
        }
    }
    assert(names_of(longer) =~= names_of(entries).insert(entry.name@));
}

/// An entry in the place of one with the same name leaves the names as they are.
proof fn lemma_names_after_update(entries: Seq<Entry>, at: int, entry: Entry)
    requires
        0 <= at < entries.len(),
        entries[at].name@ == entry.name@,
    ensures
        names_of(entries.update(at, entry)) == names_of(entries),
{
    let updated = entries.update(at, entry);
    assert forall|name: Seq<char>| names_of(entries).contains(name) implies names_of(
        updated,
    ).contains(name) by {
        let i = choose|i: int| 0 <= i < entries.len() && (#[trigger] entries[i]).name@ == name;
        assert(updated[i].name@ == name);
    }
    assert forall|name: Seq<char>| names_of(updated).contains(name) implies names_of(
        entries,
    ).contains(name) by {
        let i = choose|i: int| 0 <= i < updated.len() && (#[trigger] updated[i]).name@ == name;
        assert(entries[i].name@ == name);
    }
    assert(names_of(updated) =~= names_of(entries));
}

/// The registry of handlers and the engine that runs jobs by them.
pub struct Worker {
    registry: Vec<Entry>,
}

/// The job after the worker has dealt with it: completed where a handler is
/// registered under its `function`, and after one more failed attempt where
/// none is.
pub open spec fn run_result(names: Set<Seq<char>>, j: JobView) -> JobView {
    if names.contains(j.function) {
        JobView { status: Status::Completed, ..j }
    } else {
        after_failure(j)
    }
}

/// Whether the worker can deal with the job: a failed attempt must still fit
/// the counter.
pub open spec fn can_run(names: Set<Seq<char>>, j: JobView) -> bool {
    names.contains(j.function) || j.retry_count < u32::MAX
}

/// The job after the worker has dealt with it `n` times in a row.
pub open spec fn run_times(names: Set<Seq<char>>, j: JobView, n: nat) -> JobView
    decreases n,
{
    if n == 0 {
        j
    } else {
        run_result(names, run_times(names, j, (n - 1) as nat))
    }
}

/// A job whose handler is missing fails each time it is run: with fewer
/// failed attempts than `max_retries`, it is pending again after each further
/// run but the last that `max_retries` allows, and that last one marks it as
/// failed, with a `retry_count` of `max_retries`. A job that has never failed
/// is thus run `max_retries` times.
pub proof fn lemma_missing_handler_is_bounded(names: Set<Seq<char>>, j: JobView)
    requires
        !names.contains(j.function),
        j.retry_count < j.max_retries,
    ensures
        forall|n: nat|
            1 <= n < j.max_retries - j.retry_count ==> (#[trigger] run_times(
                names,
                j,
                n,
            )).status == Status::Pending,
        ({
            let last = (j.max_retries - j.retry_count) as nat;
            &&& run_times(names, j, last).status == Status::Failed
            &&& run_times(names, j, last).retry_count == j.max_retries
        }),
{
    lemma_retries_are_bounded(j);
    assert forall|n: nat| #[trigger] run_times(names, j, n) == after_failures(j, n) by {
        lemma_missing_runs_are_failures(names, j, n);
    }
}

/// While its handler is missing, running a job is a failed attempt.
proof fn lemma_missing_runs_are_failures(names: Set<Seq<char>>, j: JobView, n: nat)
    requires
        !names.contains(j.function),
    ensures
        run_times(names, j, n) == after_failures(j, n),
        run_times(names, j, n).function == j.function,
    decreases n,
{
    if n > 0 {
        lemma_missing_runs_are_failures(names, j, (n - 1) as nat);
    }
}

/// The message sent before a job's handler is called.
pub fn executing_line(description: &str) -> (line: String)
    ensures
        line@ == "[Worker] Executing '"@ + description@ + "'"@,
{
    String::from_str("[Worker] Executing '").concat(description).concat("'")
}

/// The message sent after a job's handler has returned.
pub fn done_line(description: &str) -> (line: String)
    ensures
        line@ == "[Worker] Done '"@ + description@ + "'"@,
{
    String::from_str("[Worker] Done '").concat(description).concat("'")
}

/// The message sent for a job whose `function` names no handler.
pub fn missing_line(function: &str) -> (line: String)
    ensures
        line@ == "[Worker] Error: No function registered for '"@ + function@ + "'"@,
{
    String::from_str("[Worker] Error: No function registered for '").concat(function).concat("'")
}

/// The database backup, as a handler: it sends [`BackupDbTask::announcement`].
pub fn backup_db(log_tx: Sender<String>) {
    offer(&log_tx, BackupDbTask::announcement());
}

impl Worker {
    /// The names under which a handler is registered.
    pub closed spec fn registered(&self) -> Set<Seq<char>> {
        names_of(self.registry@)
    }

    /// A worker with no handler.
    pub fn new() -> (w: Worker)
        ensures
            w.registered() == Set::<Seq<char>>::empty(),
    {
        let w = Worker { registry: Vec::new() };
        assert(w.registered() =~= Set::<Seq<char>>::empty());
        w
    }

    /// Where the handler of that name stands, if there is one.
    fn position(&self, name: &String) -> (at: Option<usize>)
        ensures
            match at {
                Some(i) => i < self.registry@.len() && self.registry@[i as int].name@ == name@,
                None => !self.registered().contains(name@),
            },
    {
        let mut i: usize = 0;
        while i < self.registry.len()
            invariant
                i <= self.registry@.len(),
                forall|k: int| 0 <= k < i ==> (#[trigger] self.registry@[k]).name@ != name@,
            decreases self.registry@.len() - i,
        {
            if self.registry[i].name == *name {
                return Some(i);
            }
            i = i + 1;
        }
        None
    }

    /// Whether a handler is registered under the name.
    pub fn is_registered(&self, name: &str) -> (found: bool)
        ensures
            found == self.registered().contains(name@),
    {
        let owned = name.to_string();
        self.position(&owned).is_some()
    }

    /// Registers the handler under the name, in place of any handler
    /// registered under it before.
    pub fn register<F>(&mut self, name: &str, f: F) where
        F: Fn(Sender<String>) + Send + 'static,

        requires
            forall|tx: Sender<String>| f.requires((tx,)),
        ensures
            final(self).registered() == old(self).registered().insert(name@),
    {
        let owned = name.to_string();
        let found = self.position(&owned);
        let entry = entry_for(owned, f);
        match found {
            Some(i) => {
                proof {
                    lemma_names_after_update(self.registry@, i as int, entry);
                }
                self.registry.set(i, entry);
                assert(old(self).registered().insert(name@) =~= old(self).registered());
            },
            None => {
                proof {
                    lemma_names_after_push(self.registry@, entry);
                }
                self.registry.push(entry);
            },
        }
    }

    /// Runs the job by the handler that its `function` names and marks it
    /// completed; where no handler is registered under that name, counts a
    /// failed attempt instead. Progress is reported on `log_tx`.
    pub fn run_job(&self, job: &mut Job, log_tx: Sender<String>)
        requires
            can_run(self.registered(), old(job)@),
        ensures
            final(job)@ == run_result(self.registered(), old(job)@),
    {
        match self.position(&job.function) {
            Some(i) => {
                job.start();
                offer(&log_tx, executing_line(job.description.as_str()));
                self.registry[i].handler.run(another(&log_tx));
                job.complete();
                offer(&log_tx, done_line(job.description.as_str()));
            },
            None => {
                offer(&log_tx, missing_line(job.function.as_str()));
                job.fail_and_retry();
            },
        }
    }

    /// Runs the jobs one after the other, each as [`Worker::run_job`] does,
    /// and returns them as they are afterwards.
    pub fn start(&self, jobs: Vec<Job>, log_tx: Sender<String>) -> (done: Vec<Job>)
        requires
            forall|i: int|
                0 <= i < jobs@.len() ==> can_run(self.registered(), (#[trigger] jobs@[i])@),
        ensures
            done@.len() == jobs@.len(),
            forall|i: int|
                0 <= i < done@.len() ==> (#[trigger] done@[i])@ == run_result(
                    self.registered(),
                    jobs@[i]@,
                ),
    {
        let mut done: Vec<Job> = Vec::new();
        for job in it: jobs
            invariant
                it.seq() == jobs@,
                forall|i: int|
                    0 <= i < jobs@.len() ==> can_run(self.registered(), (#[trigger] jobs@[i])@),
                done@.len() == it.index(),
                forall|i: int|
                    0 <= i < done@.len() ==> (#[trigger] done@[i])@ == run_result(
                        self.registered(),
                        jobs@[i]@,
                    ),
        {
            let mut job = job;
            self.run_job(&mut job, another(&log_tx));
            done.push(job);
        }
        done
    }
}

} // verus!
