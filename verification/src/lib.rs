//! Core logic of a real-time message broadcast relay: the connection
//! registry, the wire codec for messages, the gateway's admission and
//! read-loop decisions, the broadcast engine, and the peer overlay's
//! event handling.

pub mod broadcast;
pub mod codec;
pub mod config;
pub mod decode;
pub mod gateway;
pub mod message;
pub mod overlay;
pub mod registry;
pub mod roundtrip;
