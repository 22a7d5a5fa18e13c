//! The frames that a client writes, and what they carry.

use ntex_bytes::Bytes;
use ntex_http::{HeaderMap, Method};
use vstd::prelude::*;

verus! {

/// A flow-control window size, in bytes.
pub type WindowSize = u32;

/// The largest flow-control window, and the largest stream identifier: 31 bits.
pub const MAX_31_BITS: u32 = 0x7fff_ffff;

/// The flow-control window that a connection and its streams start with.
pub const DEFAULT_WINDOW_SIZE: u32 = 65_535;

/// The smallest value that a peer may set for its maximum frame size, and the
/// value in force until it sets one.
pub const MIN_FRAME_SIZE: u32 = 16_384;

/// The largest value that a peer may set for its maximum frame size.
pub const MAX_FRAME_SIZE: u32 = 16_777_215;

/// Identifies a stream within its connection.
#[derive(Debug, Clone, Copy, PartialEq, Eq, Structural)]
pub struct StreamId(pub u32);

impl From<StreamId> for u32 {
    fn from(id: StreamId) -> (n: u32) {
        id.0
    }
}

impl vstd::std_specs::convert::FromSpecImpl<StreamId> for u32 {
    open spec fn obeys_from_spec() -> bool {
        true
    }

    open spec fn from_spec(id: StreamId) -> u32 {
        id.0
    }
}

/// Why a stream or a connection was ended before its time.
#[allow(non_camel_case_types)]
#[derive(Debug, Clone, Copy, PartialEq, Eq, Structural)]
pub enum Reason {
    NO_ERROR,
    PROTOCOL_ERROR,
    INTERNAL_ERROR,
    FLOW_CONTROL_ERROR,
    SETTINGS_TIMEOUT,
    STREAM_CLOSED,
    FRAME_SIZE_ERROR,
    REFUSED_STREAM,
    CANCEL,
    COMPRESSION_ERROR,
    CONNECT_ERROR,
    ENHANCE_YOUR_CALM,
    INADEQUATE_SECURITY,
    HTTP_1_1_REQUIRED,
}

/// A frame that waits to be written.
#[derive(Debug)]
pub enum Frame {
    /// Opens a stream with a request.
    Headers {
        id: StreamId,
        secure: bool,
        authority: String,
        method: Method,
        path: String,
        headers: HeaderMap,
        eof: bool,
    },
    /// A piece of payload.
    Data { id: StreamId, payload: Bytes, eof: bool },
    /// The trailers, which end the client's side of a stream.
    Trailers { id: StreamId, headers: HeaderMap },
    /// Cuts a stream off.
    Reset { id: StreamId, reason: Reason },
}

/// What a [`Frame`] says.
#[verifier::ext_equal]
pub enum FrameView {
    Headers {
        id: StreamId,
        secure: bool,
        authority: Seq<char>,
        method: Method,
        path: Seq<char>,
        headers: HeaderMap,
        eof: bool,
    },
    Data { id: StreamId, payload: Seq<u8>, eof: bool },
    Trailers { id: StreamId, headers: HeaderMap },
    Reset { id: StreamId, reason: Reason },
}

impl View for Frame {
    type V = FrameView;

    open spec fn view(&self) -> FrameView {
        match *self {
            Frame::Headers { id, secure, authority, method, path, headers, eof } =>
                FrameView::Headers {
                    id,
                    secure,
                    authority: authority@,
                    method,
                    path: path@,
                    headers,
                    eof,
                },
            Frame::Data { id, payload, eof } => FrameView::Data {
                id,
                payload: crate::foreign::bytes_contents(payload),
                eof,
            },
            Frame::Trailers { id, headers } => FrameView::Trailers { id, headers },
            Frame::Reset { id, reason } => FrameView::Reset { id, reason },
        }
    }
}

/// The frames that carry `data` in order, none above `size` bytes; the last one ends the
/// client's side of the stream where `eof` says so.
pub open spec fn data_frames(id: StreamId, data: Seq<u8>, size: nat, eof: bool) -> Seq<FrameView>
    decreases data.len(),
{
    if size == 0 || data.len() <= size {
        seq![FrameView::Data { id, payload: data, eof }]
    } else {
        seq![FrameView::Data { id, payload: data.take(size as int), eof: false }] + data_frames(
            id,
            data.skip(size as int),
            size,
            eof,
        )
    }
}

} // verus!
