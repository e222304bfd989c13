//! The sending half of a `std::sync::mpsc` channel, as far as the scheduler
//! uses it: a place to hand values to, without waiting and without an answer.

use std::sync::mpsc::Sender;
use vstd::prelude::*;

verus! {

/// `std::sync::mpsc::Sender`, as an opaque type.
#[verifier::external_type_specification]
#[verifier::external_body]
#[verifier::reject_recursive_types(T)]
pub struct ExSender<T>(Sender<T>);

/// `Sender::send`, with its result dropped: the value is handed to the
/// channel, and a receiver that has gone away is not reported. Nothing is
/// claimed of what the receiving side sees.
#[verifier::external_body]
pub(crate) fn offer<T>(tx: &Sender<T>, value: T) {
    let _ = tx.send(value);
}

/// `Sender::clone`: another handle to the same channel. Nothing is claimed of it.
#[verifier::external_body]
pub(crate) fn another<T>(tx: &Sender<T>) -> (handle: Sender<T>) {
    tx.clone()
}

} // verus!
