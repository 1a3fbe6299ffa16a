//! A transport layer for exchanging typed messages between a server and many
//! clients, with interchangeable backends.
//!
//! The crate splits a transport into a synchronous *frontend*, polled once per
//! application tick, and a *backend* that performs the actual I/O. The two
//! halves talk over bounded command and event queues. Client identities are
//! generational, so a stale identifier can never be confused with a fresh one
//! that happens to reuse the same slot.

pub mod channel;
pub mod error;
pub mod event;
pub mod frontend;
pub mod message;
pub mod registry;
pub mod stream;
pub mod transport;
