//! A line-oriented chat room: the registry of joined clients, the session
//! state machine of one connection, and the line framing of its byte stream.

pub mod framer;
pub mod history;
pub mod registry;
pub mod room;
pub mod session;
pub mod slots;
pub mod text;
