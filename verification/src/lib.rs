//! Core of a multi-client chat relay: the connection registry, the
//! ingestion-queue / fan-out-bus pipeline bridged by the relay loop, the
//! per-connection session state machine, and the wire codec.
//!
//! Everything here is pure logic over plain values; the surrounding program
//! supplies the sockets, channels and tasks and drives these functions.
use vstd::prelude::*;

pub mod error;
pub mod message;
pub mod codec;
pub mod registry;
pub mod relay;
pub mod session;
pub mod client;

verus! {

/// Identifier of a connected client, unique among currently live sessions.
pub type Id = usize;

} // verus!
