//! The JSON-RPC messages that pass between client and server.
pub mod framing;
pub mod message;
pub mod pipeline;
