//! Clients of an HTTP/2 connection.

pub mod simple2;
