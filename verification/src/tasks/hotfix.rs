//! The hotfix task.

use super::Task;
use crate::channel::offer;
use std::sync::mpsc::Sender;
use vstd::prelude::*;
use vstd::string::StringExecFns;

verus! {

pub struct HotfixTask;

impl HotfixTask {
    /// The line with which the task announces itself.
    pub fn announcement() -> (line: String)
        ensures
            line@ == " [Task] Applying urgent hotfix..."@,
    {
        String::from_str(" [Task] Applying urgent hotfix...")
    }
}

impl Task for HotfixTask {
    /// Sends [`HotfixTask::announcement`].
    fn run(log_tx: Sender<String>) {
        offer(&log_tx, HotfixTask::announcement());
    }
}

} // verus!
