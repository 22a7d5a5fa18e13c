//! Tasks that wait on a connection.

use vstd::prelude::*;

verus! {

/// Names a task that waits on the connection. The transport chooses the number and
/// wakes the task when the connection hands the number back.
pub type WakerId = u64;

/// The answer to a question that may have to be asked again.
#[derive(Debug, PartialEq, Eq)]
pub enum Poll<T> {
    /// The answer.
    Ready(T),
    /// There is no answer yet; the task that asked is woken when there may be one.
    Pending,
}

} // verus!
