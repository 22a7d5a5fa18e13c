//! Client side of an HTTP/2 connection: which requests may be opened, how their
//! payload is cut into frames, and how the connection winds down.
//!
//! The library performs no I/O. A [`Connection`] takes the client's calls and the
//! peer's frames as events, and keeps the frames to write and the tasks to wake
//! until the transport collects them.

pub mod client;
mod connection;
pub mod effects;
mod error;
pub mod foreign;
pub mod frame;
pub mod laws;
mod message;
pub mod model;
mod stream;
mod table;
mod task;

pub use crate::connection::{Connection, Request, RequestOutcome};
pub use crate::error::OperationError;
pub use crate::message::{Message, MessageKind, StreamEof};
pub use crate::stream::{HalfState, StreamRef, StreamState};
pub use crate::task::{Poll, WakerId};
