//! Properties that relate the operations of the library to one another.

pub mod chunking;
pub mod codec;
pub mod decoder;
pub mod handshake;
pub mod messages;
