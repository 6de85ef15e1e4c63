//! Connection-level engine of a real-time messaging server: logical packets
//! are split into transport frames, offered to a bounded non-blocking channel,
//! kept in order when the channel is saturated, and matched with their
//! acknowledgements.

pub mod transport;
pub mod json;
pub mod text;
pub mod packet;
pub mod errors;
pub mod sender;
pub mod acks;
pub mod registry;
pub mod config;
pub mod handshake;
pub mod socket;
pub mod client;
pub mod decode;
pub mod adapter;
pub mod operators;
pub mod roundtrip;
