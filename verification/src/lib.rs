//! RTMP protocol processing: the handshake, chunk stream decoding and
//! encoding, and the message formats carried over chunk streams.

pub mod wire;
pub mod buffer;
pub mod clock;
pub mod handshake;
pub mod amf_codec;
pub mod message;
pub mod chunk;
pub mod laws;
