//! What an operation on a connection or a stream can fail with.

use vstd::prelude::*;

use crate::frame::Reason;

verus! {

/// Failure of an operation on a connection or on one of its streams.
#[derive(Debug, Clone, Copy, PartialEq, Eq)]
pub enum OperationError {
    /// The sending half of the stream is closed.
    Closed(Option<Reason>),
    /// The peer reset the stream.
    RemoteReset(Reason),
    /// The stream was reset from this side.
    LocalReset(Reason),
    /// Every identifier that a client may give to a stream has been used.
    OverflowedStreamId,
    /// The connection failed.
    Connection(Reason),
    /// The transport is gone.
    Disconnected,
}

} // verus!
