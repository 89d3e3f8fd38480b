//! Core of an MQTT v5 broker (with v3.1.1 compatibility): topic-filter
//! parsing and matching, packet types with a wire codec, the in-memory
//! session/routing storage, the per-connection protocol state machine, and
//! the process-wide connection registry.
//!
//! All protocol strings (topic names, filters, client identifiers) are kept
//! as UTF-8 byte vectors; contracts speak about them as byte sequences.

pub mod assoc;
pub mod bytes_util;
pub mod codec;
pub mod connection;
pub mod laws;
pub mod maps;
pub mod message;
pub mod packets;
pub mod server;
pub mod storage;
pub mod topic;
