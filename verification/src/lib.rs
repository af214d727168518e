//! Verified core of a JSON-RPC proxy in front of Atomicals ElectrumX servers.

pub mod ids;
pub mod text;
pub mod urn;
pub mod json;
pub mod rpc;
pub mod hex_text;
pub mod cbor;
pub mod envelope;
pub mod media_type;
pub mod urn_flow;
pub mod cache;
pub mod ip;
pub mod config;
pub mod proxy;
pub mod laws;
