//! Client engine of an anonymous group chat: wire framing, request
//! correlation, the per-conference key exchange and the ring-signed,
//! encrypted message pipeline.

pub mod bytes;
pub mod conference_manager;
pub mod connection_manager;
pub mod constants;
pub mod crypto;
pub mod primitives;
pub mod ring;
pub mod signature;
pub mod state_manager;
