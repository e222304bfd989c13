//! Tasks that can be registered with a worker as handlers.

pub mod backup_db;
pub mod hotfix;
pub mod send_email;

use std::sync::mpsc::Sender;
use vstd::prelude::*;

verus! {

/// A task: work that reports its progress on a channel.
pub trait Task {
    /// Does the work. Whatever there is to say, failure included, is said on
    /// `log_tx`.
    fn run(log_tx: Sender<String>);
}

} // verus!
