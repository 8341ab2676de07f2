//! Secure TCP-over-WebSocket tunnel: wire codec, crypto engines, secure
//! session handshake, gateway and client session logic.
use vstd::prelude::*;

pub mod msgpack;
pub mod wire;
pub mod crypto;
pub mod session;
pub mod gateway;
pub mod client;
pub mod config;
pub mod registry;
pub mod models;

verus! {

} // verus!
