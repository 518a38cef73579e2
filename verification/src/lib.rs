//! Collective-communication runtime core for a multi-party computation
//! framework: message-id derivation, the signed wire format, the per-kind
//! send/receive planner, the message buffer, and the collective-consistency
//! checker.

pub mod buffer;
pub mod checker;
pub mod codec;
pub mod communicator;
pub mod config;
pub mod crypto;
pub mod errc;
pub mod errors;
pub mod kind;
pub mod metadata;
pub mod planner;
pub mod vec2d;

use vstd::prelude::*;

verus! {

/// Identifier of a participating party within a roster.
pub type PartyID = u16;

/// Wire format version byte.
pub type MessageFormat = u8;

/// Wire feature-flags byte.
pub type MessageFlags = u8;

/// Opaque payload datatype tag, chosen by the caller.
pub type MessageDatatype = u8;

/// Derived 64-bit message identifier.
pub type MessageID = u64;

/// Payload size in bytes as carried in a frame header.
pub type MessageSize = u64;

/// Container for an owned message payload.
pub type OwnedData = Vec<u8>;

/// 128-bit per-run session identifier.
pub type SessionID = u128;

} // verus!
