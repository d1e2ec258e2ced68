//! A peer-to-peer group-chat protocol engine.
//!
//! The crate provides the wire-protocol codec (command schema, validation
//! and a compact self-describing binary encoding), the signed-record
//! subsystem used for distributed nickname records, and the client engine
//! that translates raw network events into application events while
//! maintaining a nickname cache and channel membership.

use vstd::prelude::*;

mod error;
pub mod client;
pub mod envelope;
pub mod msgpack;
pub mod protocol;

pub use client::{Client, ClientEvent};
pub use envelope::{gen_id_keys, peer_id_from_keypair};
pub use error::Error;

verus! {

/// The gossip topic for top-level network communication.
pub const DEFAULT_GOSSIPSUB_TOPIC: &'static str = "/p2p-chat";

/// The signed envelope domain for records in the distributed store.
pub const SIGNED_ENVELOPE_DOMAIN: &'static str = "p2p-chat-data";

/// The maximum length of a message, in bytes.
pub const MAX_MESSAGE_LENGTH: usize = 512;

/// The maximum length of a channel identifier, in bytes.
pub const MAX_CHANNEL_IDENTIFIER_LENGTH: usize = 20;

/// The maximum length of a nickname, in bytes.
pub const MAX_NICK_LENGTH: usize = 20;

} // verus!
