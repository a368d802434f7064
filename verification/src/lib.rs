//! A line-oriented key/value protocol: request parsing, the store that serves it,
//! the client's request encoding and reply decoding, and the server's start/stop
//! decisions, each with its contract.

pub mod client;
pub mod laws;
pub mod lifecycle;
pub mod protocol;
pub mod store;
pub mod string_store;
pub mod text;
