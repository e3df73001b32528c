//! Client side of a Diameter-style request/response protocol: a typed binary
//! codec for attribute values, a length-prefixed message framer, and the
//! state of a connection multiplexer that routes each inbound response to the
//! in-flight request bearing the same correlation id.

pub mod address;
pub mod client;
pub mod error;
pub mod message;
