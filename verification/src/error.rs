//! The error taxonomy.
//!
//! Two classes of error exist. Local, synchronous errors are returned
//! directly from a frontend call and are always recoverable by the caller.
//! Asynchronous session errors occur inside a backend task and are never
//! returned synchronously: each one surfaces as exactly one `Disconnected`
//! event carrying the most specific reason available.

use vstd::prelude::*;
use crate::registry::ClientId;
use crate::stream::StreamKind;

verus! {

/// Why an operation on a single stream failed.
///
/// The `String` payloads describe the underlying transport cause, which this
/// layer treats as opaque.
#[derive(Debug, Clone, PartialEq, Eq)]
pub enum StreamError {
    /// The stream could not be opened during connection establishment.
    Open(String),
    /// Receiving data on the stream failed.
    Recv(String),
    /// Sending data on the stream failed.
    Send(String),
    /// The remote side closed the stream deliberately.
    Closed,
}

/// Why a whole session (one client's connection) ended.
///
/// Every backend failure that ends a connection is converted into exactly one
/// `Disconnected` event carrying one of these reasons; no error is silently
/// dropped.
#[derive(Debug, Clone, PartialEq, Eq)]
pub enum SessionError {
    /// The listener ended, taking every connection down with it.
    ServerClosed,
    /// An explicit disconnect command was honored.
    ForceDisconnect,
    /// Receiving the incoming session failed during negotiation.
    RecvSession(String),
    /// Accepting the session failed during negotiation.
    AcceptSession(String),
    /// An operation on one stream failed; the whole connection closes with
    /// it, and partial stream sets are never exposed.
    Stream {
        /// The stream on which the failure happened.
        stream: StreamKind,
        /// What went wrong on that stream.
        source: StreamError,
    },
}

/// A local, synchronous error returned by a frontend call of the networked
/// server.
#[derive(Debug, Clone, Copy, PartialEq, Eq, Structural)]
pub enum ServerError {
    /// The backend is already open, so it cannot be opened again.
    BackendOpen,
    /// The backend is closed (or still opening), so it cannot carry traffic.
    BackendClosed,
    /// The given client id is unknown: never connected, or stale.
    NoClient(ClientId),
    /// The client is known but its connection is not yet established.
    NotConnected(ClientId),
    /// The bounded command queue is full; the command was not enqueued.
    ChannelFull,
}

/// A local, synchronous error returned by the in-memory channel transport.
#[derive(Debug, Clone, Copy, PartialEq, Eq, Structural)]
pub enum ChannelError {
    /// The client is already connected to a server.
    AlreadyConnected,
    /// The client is already disconnected.
    AlreadyDisconnected,
    /// The other side is gone, so the message cannot be carried.
    Disconnected,
    /// The given client id is unknown: never connected, or stale.
    NoClient(ClientId),
}

} // verus!
