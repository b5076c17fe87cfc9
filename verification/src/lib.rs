//! A client-side library for the Mumble voice-chat control protocol:
//! framing of TCP messages, the message-kind table, protobuf encoding of
//! the messages a client sends, and the parser state that the receive loop
//! drives.

pub mod message_kind;
pub mod frame;
pub mod parser;
pub mod wire;
pub mod proto;
pub mod outgoing;
pub mod transport;
pub mod receive;
pub mod schema;
