//! The state of one stream, and the handle that names it.

use vstd::prelude::*;

use crate::error::OperationError;
use crate::frame::{Reason, StreamId};
use crate::task::WakerId;

verus! {

/// One direction of a stream.
#[derive(Debug, Clone, Copy, PartialEq, Eq)]
pub enum HalfState {
    /// Frames may still travel this way.
    Open,
    /// Nothing more travels this way; a reset leaves its reason.
    Closed(Option<Reason>),
}

/// What a connection knows of one of its streams.
#[derive(Debug, Clone, Copy, PartialEq, Eq)]
pub struct StreamState {
    /// The stream's identifier.
    pub id: StreamId,
    /// The direction from the client to the peer.
    pub send: HalfState,
    /// The direction from the peer to the client.
    pub recv: HalfState,
    /// Bytes of payload that the peer is still willing to take on this stream. Below
    /// zero where the peer shrank its windows after the bytes were sent.
    pub send_window: i64,
    /// What went wrong with the stream, if it did not end in good order.
    pub error: Option<OperationError>,
    /// The task that waits for send capacity.
    pub send_cap: Option<WakerId>,
    /// The task that waits for the end of the sending half.
    pub send_reset: Option<WakerId>,
    /// Whether the handle of the stream is gone, so that nobody asks for it again.
    pub released: bool,
}

impl StreamState {
    /// Whether at least one direction is open.
    pub open spec fn is_open(self) -> bool {
        self.send is Open || self.recv is Open
    }

    /// A stream that a request has just opened. `eof` where the request is complete with
    /// its header block.
    pub open spec fn opened(id: StreamId, eof: bool, window: int) -> StreamState {
        StreamState {
            id,
            send: if eof {
                HalfState::Closed(None)
            } else {
                HalfState::Open
            },
            recv: HalfState::Open,
            send_window: window as i64,
            error: None,
            send_cap: None,
            send_reset: None,
            released: false,
        }
    }

    /// How a stream appears that the connection does not know: over, and of no use.
    pub open spec fn unknown(id: StreamId) -> StreamState {
        StreamState {
            id,
            send: HalfState::Closed(None),
            recv: HalfState::Closed(None),
            send_window: 0,
            error: Some(OperationError::Closed(None)),
            send_cap: None,
            send_reset: None,
            released: true,
        }
    }

    /// The stream once the client has sent everything.
    pub open spec fn finished_sending(self) -> StreamState {
        StreamState { send: HalfState::Closed(None), send_reset: None, ..self }
    }

    /// The stream once the peer has sent everything.
    pub open spec fn finished_receiving(self) -> StreamState {
        StreamState { recv: HalfState::Closed(None), ..self }
    }

    /// The stream once it has been cut off in both directions.
    pub open spec fn cut_off(self, reason: Option<Reason>, error: OperationError) -> StreamState {
        StreamState {
            send: HalfState::Closed(reason),
            recv: HalfState::Closed(reason),
            error: Some(error),
            send_cap: None,
            send_reset: None,
            ..self
        }
    }

    /// The stream once the connection has failed: cut off if it was open, and nobody
    /// waits for capacity any more.
    pub open spec fn disconnected(self, error: OperationError) -> StreamState {
        if self.is_open() {
            self.cut_off(None, error)
        } else {
            StreamState { send_cap: None, ..self }
        }
    }

    /// The stream once the peer has moved the windows of its open streams.
    pub open spec fn shifted(self, delta: int) -> StreamState {
        if self.is_open() {
            StreamState { send_window: (self.send_window + delta) as i64, ..self }
        } else {
            self
        }
    }

    /// Bytes of payload that may be sent, where the whole connection may send `window`.
    pub open spec fn capacity(self, window: int) -> int {
        if self.send_window <= 0 || window <= 0 {
            0
        } else if self.send_window < window {
            self.send_window as int
        } else {
            window
        }
    }

    /// The stream once the task that waited for capacity has been told of it, if there
    /// is any.
    pub open spec fn told_of_capacity(self, window: int) -> StreamState {
        if self.capacity(window) > 0 {
            StreamState { send_cap: None, ..self }
        } else {
            self
        }
    }

    /// Whether at least one direction is open.
    pub(crate) fn has_open_half(&self) -> (open: bool)
        ensures
            open == self.is_open(),
    {
        matches!(self.send, HalfState::Open) || matches!(self.recv, HalfState::Open)
    }

    /// Bytes of payload that may be sent, where the whole connection may send `window`.
    pub(crate) fn capacity_within(&self, window: i64) -> (bytes: i64)
        ensures
            bytes == self.capacity(window as int),
    {
        if self.send_window <= 0 || window <= 0 {
            0
        } else if self.send_window < window {
            self.send_window
        } else {
            window
        }
    }

    /// Cuts the stream off in both directions.
    pub(crate) fn cut(self, reason: Option<Reason>, error: OperationError) -> (after: StreamState)
        ensures
            after == self.cut_off(reason, error),
    {
        StreamState {
            send: HalfState::Closed(reason),
            recv: HalfState::Closed(reason),
            error: Some(error),
            send_cap: None,
            send_reset: None,
            ..self
        }
    }
}

/// Refers to a stream of a connection.
#[derive(Debug, Clone, Copy, PartialEq, Eq)]
pub struct StreamRef {
    id: StreamId,
}

impl StreamRef {
    /// The identifier of the stream that is referred to.
    pub closed spec fn spec_id(self) -> StreamId {
        self.id
    }

    /// Refers to the stream with the given identifier.
    pub fn new(id: StreamId) -> (stream: StreamRef)
        ensures
            stream.spec_id() == id,
    {
        StreamRef { id }
    }

    /// The identifier of the stream.
    pub fn id(&self) -> (id: StreamId)
        ensures
            id == self.spec_id(),
    {
        self.id
    }
}

} // verus!
