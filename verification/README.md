# rtmp

The RTMP protocol, server side, as a library whose behaviour is stated in
Verus contracts and proved:

- `src/handshake.rs`: the handshake (C0/C1/C2 in, S0/S1/S2 out), as a model
  `HandshakeView` and one step `consume_step` that every call of `consume`
  follows.
- `src/chunk.rs`: the chunk stream. `poll` decodes at most one chunk and the
  message it completes, following `ChunkView::poll_spec`; `push` encodes
  control messages and AMF0 commands, cutting message bodies at the outgoing
  chunk size; `buffering` queues received bytes and acknowledges them.
- `src/message.rs`: message headers and messages, with their models.
- `src/laws.rs`: properties across operations, such as reading back what the
  encoder wrote (a command cut into several chunks included), the count of
  bytes received over any run of calls, and the progress and completion of a
  handshake.
- `src/buffer.rs`, `src/amf_codec.rs`, `src/clock.rs`: the trusted contracts of
  the `bytes` and `amf` crates and of `std::time`.
- `app/main.rs`: a server that accepts live streams and logs what they carry.
