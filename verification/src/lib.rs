//! Core of a text clipboard that is kept in step across machines over TCP.
//!
//! The crate holds the wire framing, the fingerprint that suppresses echo and
//! repeated sends, the peer registry and the decisions of the polling and
//! connection loops. Every function is stated over mathematical models and
//! proved; sockets, the native clipboard and the scheduler stay with the caller.

pub mod buffer;
pub mod client;
pub mod clipboard;
pub mod common;
pub mod error;
pub mod fingerprint;
pub mod frame;
pub mod message;
pub mod registry;
pub mod resync;
pub mod server;
pub mod text;

pub use crate::common::{calculate_hash, decode, encode};
