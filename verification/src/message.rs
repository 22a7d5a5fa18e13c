//! What the connection tells its user.

use ntex_bytes::Bytes;
use ntex_http::HeaderMap;
use vstd::prelude::*;

use crate::error::OperationError;
use crate::stream::StreamRef;

verus! {

/// News of a stream.
#[derive(Debug)]
pub struct Message {
    /// The stream that the news is about.
    pub stream: StreamRef,
    /// The news.
    pub kind: MessageKind,
}

/// The news that a [`Message`] brings.
#[derive(Debug)]
pub enum MessageKind {
    /// A header block arrived; `eof` where nothing follows it.
    Headers { headers: HeaderMap, eof: bool },
    /// Payload arrived, and takes up this much of the receive window.
    Data(Bytes, u32),
    /// The peer has sent everything.
    Eof(StreamEof),
    /// The connection is gone.
    Disconnect(OperationError),
    /// The peer answered a ping with this payload.
    Pong(u64),
}

/// How the peer's side of a stream ended.
#[derive(Debug)]
pub enum StreamEof {
    /// With a last piece of payload.
    Data(Bytes),
    /// With trailers.
    Trailers(HeaderMap),
    /// With a failure of the stream.
    Error(OperationError),
}

/// The messages, out of those sent to a queue, that the queue took.
pub open spec fn taken(sent: Seq<(Message, bool)>) -> Seq<Message>
    decreases sent.len(),
{
    if sent.len() == 0 {
        Seq::empty()
    } else if sent.last().1 {
        taken(sent.drop_last()).push(sent.last().0)
    } else {
        taken(sent.drop_last())
    }
}

} // verus!
