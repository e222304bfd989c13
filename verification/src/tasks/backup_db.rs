//! The database backup task.

use super::Task;
use crate::channel::offer;
use std::sync::mpsc::Sender;
use vstd::prelude::*;
use vstd::string::StringExecFns;

verus! {

pub struct BackupDbTask;

impl BackupDbTask {
    /// The line with which the task announces itself.
    pub fn announcement() -> (line: String)
        ensures
            line@ == "🗄️ [Task] Backing up database..."@,
    {
        String::from_str("🗄️ [Task] Backing up database...")
    }
}

impl Task for BackupDbTask {
    /// Sends [`BackupDbTask::announcement`].
    fn run(log_tx: Sender<String>) {
        offer(&log_tx, BackupDbTask::announcement());
    }
}

} // verus!
