//! Client-side transport core for a length-prefixed JSON-RPC byte protocol:
//! frame codec, pending-request table, and the session state machine that
//! multiplexes concurrent requests over one duplex byte stream.

pub mod body;
pub mod codec;
pub mod json;
pub mod msg;
pub mod session;
pub mod table;
