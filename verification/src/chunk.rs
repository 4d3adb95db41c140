//! Chunk streams: decoding chunks into messages, and encoding messages.

use bytes::BytesMut;
use std::collections::HashMap;
use vstd::prelude::*;

use vstd::slice::slice_subrange;

use crate::amf_codec::{amf0_values, amf_encodable, amf_encodings, decode_amf0, encode_amf_value};
use crate::buffer::{bm_as_slice, bm_capacity, bm_clear, bm_clone, bm_extend, bm_reserve, bm_get_i32, bm_get_u16, bm_get_u32, bm_get_u8, bm_len, bm_put, bm_put_i32, bm_put_slice, bm_put_u16, bm_put_u32, bm_put_u8, bm_split, bm_split_to, bm_with_capacity, bytes_of};
use crate::message::{event_view, message_view, EventView, Header, MessagePacket, MessageView, UserControlEvent, Message, TIMESTAMP_MAX};
use crate::message::msg_type;
use crate::message::user_control_event;
use crate::wire::{be16, be16_value, be24_value, be32, be32_signed, be32_signed_value, be32_value};

verus! {

#[derive(Debug, Copy, Clone)]
pub enum LimitType {
    Hard,
    Soft,
    Dynamic,
    Unknown(u8),
}

#[derive(Debug)]
pub enum ChunkError {
    UnknownChunkStream,
    UnknownEvent(UserControlEvent),
    WrongInput,
}

/// Where the decoder stands in the current chunk.
#[derive(Debug, Clone, Copy)]
pub enum ChunkState {
    Uninitialized,
    BasicHeader { fmt: u8, cs_id: u32 },
    ChunkMessageHeader { cs_id: u32 },
}

/// The default chunk size of RTMP.
pub const DEFAULT_CHUNK_SIZE: i32 = 128;

/// The model of a `MessagePacket`.
pub struct PacketView {
    pub header: Header,
    pub payload: Seq<u8>,
}

/// The model of a `Chunk`.
pub struct ChunkView {
    pub state: ChunkState,
    pub in_chunk_size: i32,
    pub out_chunk_size: i32,
    pub window_size: u32,
    pub limit_type: LimitType,
    /// Bytes received and not decoded yet.
    pub rd_buf: Seq<u8>,
    /// Bytes encoded and not flushed yet.
    pub wr_buf: Seq<u8>,
    /// The last header and the payload gathered so far, per chunk stream.
    pub streams: Map<u32, PacketView>,
    pub bytes_in: u32,
    pub bytes_in_sent: u32,
}

/// The model of a `ChunkError`.
pub enum ErrorView {
    UnknownChunkStream,
    UnknownEvent(EventView),
    WrongInput,
}

pub open spec fn error_view(e: ChunkError) -> ErrorView {
    match e {
        ChunkError::UnknownChunkStream => ErrorView::UnknownChunkStream,
        ChunkError::UnknownEvent(ev) => ErrorView::UnknownEvent(event_view(ev)),
        ChunkError::WrongInput => ErrorView::WrongInput,
    }
}

/// The model of what `poll` returns.
pub type PollView = Result<Option<MessageView>, ErrorView>;

pub open spec fn poll_view(r: Result<Option<Message>, ChunkError>) -> PollView {
    match r {
        Ok(Some(m)) => Ok(Some(message_view(m))),
        Ok(None) => Ok(None),
        Err(e) => Err(error_view(e)),
    }
}

pub open spec fn packet_view(p: MessagePacket) -> PacketView {
    PacketView { header: p.header, payload: bytes_of(p.payload) }
}

/// The byte of a limit type in a Set Peer Bandwidth message.
pub open spec fn limit_type_code(lt: LimitType) -> u8 {
    match lt {
        LimitType::Hard => 0,
        LimitType::Soft => 1,
        _ => 2,
    }
}

/// The limit type of a byte in a Set Peer Bandwidth message.
pub open spec fn limit_type_of(b: u8) -> LimitType {
    if b == 0 {
        LimitType::Hard
    } else if b == 1 {
        LimitType::Soft
    } else if b == 2 {
        LimitType::Dynamic
    } else {
        LimitType::Unknown(b)
    }
}

/// The basic header of format `fmt` (below 4) for chunk stream `cs_id`: one
/// byte below 64, two bytes below 319, three bytes (the id less 64, big
/// endian, cut to 16 bits) from there on.
pub open spec fn basic_header_bytes(fmt: u8, cs_id: u32) -> Seq<u8> {
    if cs_id < 64 {
        seq![(fmt * 64 + cs_id) as u8]
    } else if cs_id < 319 {
        seq![(fmt * 64) as u8, (cs_id - 64) as u8]
    } else {
        seq![(fmt * 64 + 63) as u8] + be16((cs_id - 64) as u16)
    }
}

/// The chunk stream id that the decoder reads from the second and third bytes
/// `b1`, `b2` of a three-byte basic header.
pub open spec fn long_chunk_stream_id(b1: u8, b2: u8) -> u32 {
    ((b1 as u32 + 64) as u32) | ((b2 as u32) << 8u32)
}

/// Whether the decoder reads the basic header that the encoder writes for
/// format `fmt` (below 4) and chunk stream `cs_id` as that format and chunk
/// stream: the one-byte form but for ids 0 and 63 in format 0, the two-byte
/// form in format 0 only, and the three-byte form in format 0 where the
/// decoder's reading of the two id bytes gives the id back.
pub open spec fn basic_header_agrees(fmt: u8, cs_id: u32) -> bool {
    if cs_id < 64 {
        !(fmt == 0 && (cs_id == 0 || cs_id == 63))
    } else if cs_id < 319 {
        fmt == 0
    } else {
        let b = be16((cs_id - 64) as u16);
        fmt == 0 && long_chunk_stream_id(b[0], b[1]) == cs_id
    }
}

/// Decodes a basic header at the start of `rd` (not empty): the format, the
/// chunk stream id and the number of bytes it takes, or `None` when `rd` ends
/// inside it. The first byte 0 announces a second byte, the first byte 63
/// announces a second and a third.
///
/// Unlike RTMP, the two markers are recognised only in format 0 (the whole
/// first byte is compared), and the three-byte id is read as the second byte
/// plus 64, or-ed with the third byte shifted by 8, while `basic_header_bytes`
/// writes it big-endian: `basic_header_agrees` says where the two meet.
pub open spec fn parse_basic_header(rd: Seq<u8>) -> Option<(u8, u32, nat)> {
    let n = rd[0];
    let fmt = (n / 64) as u8;
    if n == 0x3f || n == 0 {
        if rd.len() < 2 {
            None
        } else if n == 0x3f {
            if rd.len() < 3 {
                None
            } else {
                Some((fmt, long_chunk_stream_id(rd[1], rd[2]), 3))
            }
        } else {
            Some((fmt, (rd[1] as u32 + 64) as u32, 2))
        }
    } else {
        Some((fmt, (n % 64) as u32, 1))
    }
}

/// The least number of bytes that the message header of format `fmt` needs
/// before it is decoded.
pub open spec fn message_header_len(fmt: u8) -> nat {
    if fmt == 0 {
        11
    } else if fmt == 1 {
        7
    } else if fmt == 2 {
        3
    } else {
        0
    }
}

/// Applies a message header of format `fmt` (0, 1 or 2) at the start of `rd`
/// to the last header `h` of its chunk stream: the new header and the number
/// of bytes taken, or `None` when `rd` ends inside the extended timestamp.
pub open spec fn update_header(h: Header, rd: Seq<u8>, fmt: u8) -> Option<(Header, nat)> {
    let ts = be24_value(rd) as u32;
    let h1 = if ts < TIMESTAMP_MAX {
        if fmt == 0 {
            Header { timestamp: ts, ..h }
        } else {
            Header { timestamp_delta: ts, ..h }
        }
    } else {
        h
    };
    let h2 = if fmt != 2 {
        Header { length: be24_value(rd.skip(3)) as u32, type_id: rd[6], ..h1 }
    } else {
        h1
    };
    let h3 = if fmt == 0 {
        Header { stream_id: be32_value(rd.skip(7)) as u32, ..h2 }
    } else {
        h2
    };
    let k: nat = message_header_len(fmt);
    if TIMESTAMP_MAX <= ts {
        if rd.len() < k + 4 {
            None
        } else {
            let x = be32_value(rd.skip(k as int)) as u32;
            if fmt == 0 {
                Some((Header { timestamp: x, ..h3 }, k + 4))
            } else {
                Some((Header { timestamp_delta: x, ..h3 }, k + 4))
            }
        }
    } else {
        Some((h3, k))
    }
}

/// The header that a message header of format 0 at the start of `rd` opens a
/// chunk stream with.
pub open spec fn new_header(rd: Seq<u8>) -> Header {
    Header {
        timestamp: be24_value(rd) as u32,
        length: be24_value(rd.skip(3)) as u32,
        type_id: rd[6],
        stream_id: be32_value(rd.skip(7)) as u32,
        timestamp_delta: 0,
    }
}

/// The control message frame that `push` writes: a basic header, a message
/// header whose length field is `len` and whose type is `type_id`, with the
/// message stream id 0 for format 0, and then the body.
pub open spec fn control_frame(fmt: u8, cs_id: u32, len: u16, type_id: u8, body: Seq<u8>) -> Seq<u8> {
    basic_header_bytes(fmt, cs_id) + be32(0) + be16(len) + seq![type_id] + (if fmt == 0 {
        be32(0)
    } else {
        Seq::empty()
    }) + body
}

/// The header part of the frame that `push` writes for an AMF0 command whose
/// encoding is `len` bytes long: a basic header and a message header of
/// format 0, with timestamp 0 and message stream id 0.
pub open spec fn command_head(cs_id: u32, len: nat) -> Seq<u8> {
    basic_header_bytes(0, cs_id) + be16(0) + seq![0u8] + be16((len / 0x100) as u16)
        + seq![(len % 0x100) as u8] + seq![msg_type::COMMAND_AMF0] + be32(0)
}

/// The frame that `push` writes for an AMF0 command whose encoding is `cmd`,
/// at the outgoing chunk size `size`.
pub open spec fn command_frame(cs_id: u32, cmd: Seq<u8>, size: nat) -> Seq<u8> {
    command_head(cs_id, cmd.len()) + split_body(cs_id, cmd, size)
}

/// Any header; the processing of an aggregate message reads only its type.
pub open spec fn arbitrary_header() -> Header {
    Header { timestamp: 0, length: 0, type_id: 0, stream_id: 0, timestamp_delta: 0 }
}

/// The model of an aggregate of messages is the aggregate of their models.
proof fn lemma_aggregate_view(v: Vec<Message>, acc: Seq<MessageView>)
    requires
        acc == v@.map_values(|m: Message| message_view(m)),
    ensures
        message_view(Message::Aggregate(v)) == MessageView::Aggregate(acc),
{
    let mv = message_view(Message::Aggregate(v));
    assert(mv is Aggregate);
    if let MessageView::Aggregate(s) = mv {
        assert(s.len() == acc.len());
        assert forall|i: int| 0 <= i < s.len() implies s[i] == acc[i] by {
            assert(s[i] == message_view(v@[i]));
        }
        assert(s =~= acc);
    }
}

/// The chunks after the first of a message body `body` written in pieces of
/// `size` bytes: each piece follows a basic header of format 3 for chunk
/// stream `cs_id`, and the last piece may be shorter.
pub open spec fn continuation_chunks(cs_id: u32, body: Seq<u8>, size: nat) -> Seq<u8>
    decreases body.len(),
{
    if body.len() == 0 || size == 0 {
        Seq::empty()
    } else {
        let n: nat = if body.len() < size {
            body.len()
        } else {
            size
        };
        basic_header_bytes(3, cs_id) + body.take(n as int) + continuation_chunks(
            cs_id,
            body.skip(n as int),
            size,
        )
    }
}

/// A message body `body` as it goes out at chunk size `size`: a first piece
/// of up to `size` bytes, which follows the message header, then the
/// continuation chunks.
pub open spec fn split_body(cs_id: u32, body: Seq<u8>, size: nat) -> Seq<u8> {
    let n: nat = if body.len() < size {
        body.len()
    } else {
        size
    };
    body.take(n as int) + continuation_chunks(cs_id, body.skip(n as int), size)
}

/// A body that fits one chunk goes out whole.
pub proof fn lemma_split_body_short(cs_id: u32, body: Seq<u8>, size: nat)
    requires
        body.len() <= size,
    ensures
        split_body(cs_id, body, size) == body,
{
    assert(body.skip(body.len() as int).len() == 0);
    assert(continuation_chunks(cs_id, body.skip(body.len() as int), size) =~= Seq::<u8>::empty());
    assert(body.take(body.len() as int) + Seq::<u8>::empty() =~= body);
}

/// A control frame is its header part followed by its body.
proof fn lemma_control_frame_split(fmt: u8, cs_id: u32, len: u16, type_id: u8, body: Seq<u8>)
    ensures
        control_frame(fmt, cs_id, len, type_id, Seq::empty()) + body == control_frame(
            fmt,
            cs_id,
            len,
            type_id,
            body,
        ),
{
    assert(control_frame(fmt, cs_id, len, type_id, Seq::empty()) + body =~= control_frame(
        fmt,
        cs_id,
        len,
        type_id,
        body,
    ));
}

impl ChunkView {
    /// The chunk sizes stay in the range that the decoder and encoder expect.
    pub open spec fn wf(self) -> bool {
        &&& self.in_chunk_size >= 1
        &&& self.out_chunk_size >= DEFAULT_CHUNK_SIZE
        &&& (self.state matches ChunkState::BasicHeader { fmt, .. } ==> fmt < 4)
    }

    /// What `push` does: the new model, or `None` where the message kind is
    /// not supported or a command holds a value that the encoder refuses. The
    /// bodies of the control messages, of at most 5 bytes, fit one chunk at
    /// any chunk size `push` accepts; a command's body is cut at the outgoing
    /// chunk size.
    pub open spec fn push_spec(self, cs_id: u32, m: MessageView) -> Option<ChunkView> {
        match m {
            MessageView::SetChunkSize { chunk_size } => {
                if chunk_size < 128 {
                    Some(self)
                } else {
                    Some(
                        ChunkView {
                            out_chunk_size: chunk_size,
                            wr_buf: self.wr_buf + control_frame(
                                0,
                                cs_id,
                                4,
                                msg_type::SET_CHUNK_SIZE,
                                be32_signed(chunk_size),
                            ),
                            ..self
                        },
                    )
                }
            },
            MessageView::Ack { sequence_number } => Some(
                ChunkView {
                    wr_buf: self.wr_buf + control_frame(
                        1,
                        cs_id,
                        4,
                        msg_type::ACK,
                        be32(sequence_number),
                    ),
                    ..self
                },
            ),
            MessageView::WindowAckSize { ack_window_size } => Some(
                ChunkView {
                    wr_buf: self.wr_buf + control_frame(
                        0,
                        cs_id,
                        4,
                        msg_type::WINDOW_ACK_SIZE,
                        be32(ack_window_size),
                    ),
                    ..self
                },
            ),
            MessageView::SetPeerBandwidth { ack_window_size, limit_type } => Some(
                ChunkView {
                    wr_buf: self.wr_buf + control_frame(
                        0,
                        cs_id,
                        5,
                        msg_type::SET_PEER_BANDWIDTH,
                        be32(ack_window_size) + seq![limit_type_code(limit_type)],
                    ),
                    ..self
                },
            ),
            MessageView::Command { values } => {
                if amf_encodable(values) {
                    Some(
                        ChunkView {
                            wr_buf: self.wr_buf + command_frame(
                                cs_id,
                                amf_encodings(values),
                                self.out_chunk_size as nat,
                            ),
                            ..self
                        },
                    )
                } else {
                    None
                }
            },
            _ => None,
        }
    }

    /// Whether `buffering` is defined on `len` more bytes: the byte counters
    /// do not overflow.
    pub open spec fn buffering_defined(self, len: nat) -> bool {
        &&& self.bytes_in + (len as u32) <= u32::MAX
        &&& self.bytes_in_sent + self.window_size / 10 <= u32::MAX
    }

    /// What `buffering` does: the bytes are queued and counted, and an
    /// acknowledgement is written once the count has moved on by more than a
    /// tenth of the window since the last one.
    pub open spec fn buffering_spec(self, input: Seq<u8>) -> ChunkView {
        let bytes_in = (self.bytes_in + (input.len() as u32)) as u32;
        let v = ChunkView { rd_buf: self.rd_buf + input, bytes_in, ..self };
        if bytes_in > self.bytes_in_sent + self.window_size / 10 {
            ChunkView { bytes_in_sent: bytes_in, ..v }.push_spec(
                2,
                MessageView::Ack { sequence_number: bytes_in },
            ).unwrap()
        } else {
            v
        }
    }

    /// The model with the payload of chunk stream `cs_id` emptied, if it exists.
    pub open spec fn clear_payload(self, cs_id: u32) -> ChunkView {
        if self.streams.contains_key(cs_id) {
            ChunkView {
                streams: self.streams.insert(
                    cs_id,
                    PacketView { payload: Seq::empty(), ..self.streams[cs_id] },
                ),
                ..self
            }
        } else {
            self
        }
    }

    /// What the decoder does with a message it has decoded: the new model and
    /// the result, or `None` where it is not defined: a ping request, whose
    /// answer cannot be encoded.
    pub open spec fn react(self, m: MessageView) -> Option<(ChunkView, PollView)> {
        match m {
            MessageView::SetChunkSize { chunk_size } => {
                if chunk_size < 1 {
                    Some((self, Err(ErrorView::WrongInput)))
                } else {
                    Some((ChunkView { in_chunk_size: chunk_size, ..self }, Ok(Some(m))))
                }
            },
            MessageView::Abort { chunk_stream_id } => Some(
                (self.clear_payload(chunk_stream_id), Ok(None)),
            ),
            MessageView::Ack { .. } => Some((self, Ok(None))),
            MessageView::WindowAckSize { ack_window_size } => Some(
                (ChunkView { window_size: ack_window_size, ..self }, Ok(None)),
            ),
            MessageView::SetPeerBandwidth { ack_window_size, limit_type } => {
                let v = if self.window_size != ack_window_size {
                    self.push_spec(2, MessageView::WindowAckSize { ack_window_size }).unwrap()
                } else {
                    self
                };
                Some(
                    (
                        ChunkView { window_size: ack_window_size, limit_type, ..v },
                        Ok(None),
                    ),
                )
            },
            MessageView::UserControl(EventView::PingRequest { .. }) => None,
            _ => Some((self, Ok(Some(m)))),
        }
    }

    /// Decodes a user control event from `p` (at least two bytes).
    pub open spec fn user_control_view(p: Seq<u8>) -> Option<MessageView> {
        let ev = be16_value(p) as u16;
        let q = p.skip(2);
        if ev == user_control_event::SET_BUFFER_LENGTH {
            if q.len() < 8 {
                None
            } else {
                Some(
                    MessageView::UserControl(
                        EventView::SetBufferLength {
                            stream_id: be32_value(q) as u32,
                            length: be32_value(q.skip(4)) as u32,
                        },
                    ),
                )
            }
        } else if ev == user_control_event::STREAM_BEGIN || ev == user_control_event::STREAM_EOF
            || ev == user_control_event::STREAM_DRY || ev == user_control_event::STREAM_IS_RECORDED
            || ev == user_control_event::PING_REQUEST || ev == user_control_event::PING_RESPONSE {
            if q.len() < 4 {
                None
            } else {
                let x = be32_value(q) as u32;
                Some(
                    MessageView::UserControl(
                        if ev == user_control_event::STREAM_BEGIN {
                            EventView::StreamBegin { stream_id: x }
                        } else if ev == user_control_event::STREAM_EOF {
                            EventView::StreamEoF { stream_id: x }
                        } else if ev == user_control_event::STREAM_DRY {
                            EventView::StreamDry { stream_id: x }
                        } else if ev == user_control_event::STREAM_IS_RECORDED {
                            EventView::StreamIsRecorded { stream_id: x }
                        } else if ev == user_control_event::PING_REQUEST {
                            EventView::PingRequest { timestamp: x }
                        } else {
                            EventView::PingResponse { timestamp: x }
                        },
                    ),
                )
            }
        } else {
            Some(MessageView::UserControl(EventView::Unknown { id: ev, payload: q }))
        }
    }

    /// Decodes a message other than an aggregate from its header and payload,
    /// or `None` where the payload is too short.
    pub open spec fn decode_simple(h: Header, p: Seq<u8>) -> Option<MessageView> {
        let t = h.type_id;
        if t == msg_type::SET_CHUNK_SIZE {
            if p.len() < 4 {
                None
            } else {
                Some(MessageView::SetChunkSize { chunk_size: be32_signed_value(p) as i32 })
            }
        } else if t == msg_type::ABORT {
            if p.len() < 4 {
                None
            } else {
                Some(MessageView::Abort { chunk_stream_id: be32_value(p) as u32 })
            }
        } else if t == msg_type::ACK {
            if p.len() < 4 {
                None
            } else {
                Some(MessageView::Ack { sequence_number: be32_value(p) as u32 })
            }
        } else if t == msg_type::WINDOW_ACK_SIZE {
            if p.len() < 4 {
                None
            } else {
                Some(MessageView::WindowAckSize { ack_window_size: be32_value(p) as u32 })
            }
        } else if t == msg_type::SET_PEER_BANDWIDTH {
            if p.len() < 5 {
                None
            } else {
                Some(
                    MessageView::SetPeerBandwidth {
                        ack_window_size: be32_value(p) as u32,
                        limit_type: limit_type_of(p[4]),
                    },
                )
            }
        } else if t == msg_type::USER_CONTROL {
            if p.len() < 2 {
                None
            } else {
                Self::user_control_view(p)
            }
        } else if t == msg_type::COMMAND_AMF0 {
            Some(MessageView::Command { values: amf0_values(p) })
        } else if t == msg_type::DATA_AMF0 {
            Some(MessageView::Data { values: amf0_values(p) })
        } else if t == msg_type::AUDIO {
            if p.len() < 1 {
                None
            } else {
                Some(MessageView::Audio { delta: h.timestamp_delta, control: p[0], payload: p.skip(1) })
            }
        } else if t == msg_type::VIDEO {
            if p.len() < 1 {
                None
            } else {
                Some(MessageView::Video { delta: h.timestamp_delta, control: p[0], payload: p.skip(1) })
            }
        } else {
            Some(MessageView::Unknown { id: t, payload: p })
        }
    }

    /// What the decoder does with a complete message of header `h` and
    /// payload `p`: the new model and the result, or `None` where it is not
    /// defined: a payload too short for its message type, and what `react`
    /// leaves out.
    #[verifier::opaque]
    pub open spec fn process_spec(self, h: Header, p: Seq<u8>) -> Option<(ChunkView, PollView)>
        decreases p.len(), 1int,
    {
        if h.type_id == msg_type::AGGREGATE {
            match self.aggregate_spec(p, Seq::empty()) {
                None => None,
                Some((v, Err(e))) => Some((v, Err(e))),
                Some((v, Ok(ms))) => v.react(MessageView::Aggregate(ms)),
            }
        } else {
            match Self::decode_simple(h, p) {
                None => None,
                Some(m) => self.react(m),
            }
        }
    }

    /// The header of the sub-message at the start of `rest` (at least 11 bytes)
    /// of an aggregate message.
    pub open spec fn sub_header(rest: Seq<u8>) -> Header {
        Header {
            type_id: rest[0],
            length: be24_value(rest.skip(1)) as u32,
            timestamp: be32_value(rest.skip(4)) as u32,
            stream_id: be24_value(rest.skip(8)) as u32,
            timestamp_delta: 0,
        }
    }

    /// Processes the sub-messages in `rest` of an aggregate message one after
    /// another, after those already decoded into `acc`.
    pub open spec fn aggregate_spec(self, rest: Seq<u8>, acc: Seq<MessageView>) -> Option<
        (ChunkView, Result<Seq<MessageView>, ErrorView>),
    >
        decreases rest.len(), 0int,
    {
        if rest.len() == 0 {
            Some((self, Ok(acc)))
        } else if rest.len() < 11 {
            None
        } else {
            let h = Self::sub_header(rest);
            let r1 = rest.skip(11);
            if h.length > r1.len() {
                None
            } else {
                let sub = r1.take(h.length as int);
                let r2 = r1.skip(h.length as int);
                if r2.len() < 4 {
                    None
                } else {
                    let r3 = r2.skip(4);
                    match self.process_spec(h, sub) {
                        None => None,
                        Some((v, Err(e))) => Some((v, Err(e))),
                        Some((v, Ok(Some(m)))) => v.aggregate_spec(r3, acc.push(m)),
                        Some((v, Ok(None))) => v.aggregate_spec(r3, acc),
                    }
                }
            }
        }
    }

    /// Hands the complete message of chunk stream `cs_id` to processing, then
    /// empties its payload and waits for the next chunk.
    #[verifier::opaque]
    pub open spec fn deliver(self, cs_id: u32) -> Option<(ChunkView, PollView)> {
        let p = self.streams[cs_id];
        match self.process_spec(p.header, p.payload) {
            None => None,
            Some((v, r)) => Some(
                (ChunkView { state: ChunkState::Uninitialized, ..v.clear_payload(cs_id) }, r),
            ),
        }
    }

    /// The chunk data of chunk stream `cs_id`: the timestamp moves on by its
    /// delta, and up to a chunk of payload (`in_chunk_size` bytes) is taken
    /// once it has all arrived. The timestamp moves on again at each
    /// call that finds the chunk still incomplete.
    #[verifier::opaque]
    pub open spec fn data_stage(self, cs_id: u32) -> Option<(ChunkView, PollView)> {
        if !self.streams.contains_key(cs_id) {
            None
        } else {
            let p = self.streams[cs_id];
            let ts = p.header.timestamp + p.header.timestamp_delta;
            let length = p.header.length;
            if ts > u32::MAX {
                None
            } else if p.payload.len() > length {
                None
            } else {
                let h = Header { timestamp: ts as u32, ..p.header };
                let left = if self.in_chunk_size < length - p.payload.len() {
                    self.in_chunk_size as int
                } else {
                    length - p.payload.len()
                };
                let v1 = ChunkView {
                    streams: self.streams.insert(cs_id, PacketView { header: h, ..p }),
                    ..self
                };
                if left > self.rd_buf.len() {
                    Some((v1, Ok(None)))
                } else {
                    let payload = p.payload + self.rd_buf.take(left);
                    let v2 = ChunkView {
                        streams: self.streams.insert(cs_id, PacketView { header: h, payload }),
                        rd_buf: self.rd_buf.skip(left),
                        ..self
                    };
                    if payload.len() != length {
                        Some((ChunkView { state: ChunkState::Uninitialized, ..v2 }, Ok(None)))
                    } else {
                        v2.deliver(cs_id)
                    }
                }
            }
        }
    }

    /// The message header of format `fmt` for chunk stream `cs_id`, once the
    /// basic header is decoded.
    #[verifier::opaque]
    pub open spec fn header_stage(self, fmt: u8, cs_id: u32) -> Option<(ChunkView, PollView)> {
        let rd = self.rd_buf;
        if rd.len() < message_header_len(fmt) {
            Some((self, Ok(None)))
        } else if fmt == 3 {
            ChunkView { state: ChunkState::ChunkMessageHeader { cs_id }, ..self }.data_stage(cs_id)
        } else if self.streams.contains_key(cs_id) {
            let p = self.streams[cs_id];
            match update_header(p.header, rd, fmt) {
                None => None,
                Some((h, k)) => ChunkView {
                    state: ChunkState::ChunkMessageHeader { cs_id },
                    streams: self.streams.insert(cs_id, PacketView { header: h, ..p }),
                    rd_buf: rd.skip(k as int),
                    ..self
                }.data_stage(cs_id),
            }
        } else if fmt == 0 {
            ChunkView {
                state: ChunkState::ChunkMessageHeader { cs_id },
                streams: self.streams.insert(
                    cs_id,
                    PacketView { header: new_header(rd), payload: Seq::empty() },
                ),
                rd_buf: rd.skip(11),
                ..self
            }.data_stage(cs_id)
        } else {
            Some((self, Err(ErrorView::UnknownChunkStream)))
        }
    }

    /// What one call of `poll` does: the new model and the result, or `None`
    /// where it is not defined: data that ends inside a basic header or an
    /// extended timestamp, a chunk of format 3 on a chunk stream never opened,
    /// a timestamp that overflows, a message header whose length falls below
    /// the payload already gathered, and what `process_spec` leaves out.
    pub open spec fn poll_spec(self) -> Option<(ChunkView, PollView)> {
        match self.state {
            ChunkState::Uninitialized => {
                if self.rd_buf.len() == 0 {
                    Some((self, Ok(None)))
                } else {
                    match parse_basic_header(self.rd_buf) {
                        None => None,
                        Some((fmt, cs_id, k)) => ChunkView {
                            state: ChunkState::BasicHeader { fmt, cs_id },
                            rd_buf: self.rd_buf.skip(k as int),
                            ..self
                        }.header_stage(fmt, cs_id),
                    }
                }
            },
            ChunkState::BasicHeader { fmt, cs_id } => self.header_stage(fmt, cs_id),
            ChunkState::ChunkMessageHeader { cs_id } => self.data_stage(cs_id),
        }
    }
}


pub struct Chunk {
    state: ChunkState,
    in_chunk_size: i32,
    out_chunk_size: i32,
    window_size: u32,
    limit_type: LimitType,
    rd_buf: BytesMut,
    wr_buf: BytesMut,
    cs_headers: HashMap<u32, MessagePacket>,
    bytes_in: u32,
    bytes_in_sent: u32,
}

impl View for Chunk {
    type V = ChunkView;

    closed spec fn view(&self) -> ChunkView {
        ChunkView {
            state: self.state,
            in_chunk_size: self.in_chunk_size,
            out_chunk_size: self.out_chunk_size,
            window_size: self.window_size,
            limit_type: self.limit_type,
            rd_buf: bytes_of(self.rd_buf),
            wr_buf: bytes_of(self.wr_buf),
            streams: self.cs_headers@.map_values(|p: MessagePacket| packet_view(p)),
            bytes_in: self.bytes_in,
            bytes_in_sent: self.bytes_in_sent,
        }
    }
}

impl Chunk {
    /// A decoder and encoder with the chunk size of 128 both ways, a window
    /// of 2500000 bytes and no chunk stream open.
    pub fn new() -> (c: Self)
        ensures
            c@ == (ChunkView {
                state: ChunkState::Uninitialized,
                in_chunk_size: DEFAULT_CHUNK_SIZE,
                out_chunk_size: DEFAULT_CHUNK_SIZE,
                window_size: 2500000,
                limit_type: LimitType::Dynamic,
                rd_buf: Seq::empty(),
                wr_buf: Seq::empty(),
                streams: Map::empty(),
                bytes_in: 0,
                bytes_in_sent: 0,
            }),
            c@.wf(),
    {
        let c = Chunk {
            state: ChunkState::Uninitialized,
            in_chunk_size: DEFAULT_CHUNK_SIZE,
            out_chunk_size: DEFAULT_CHUNK_SIZE,
            window_size: 2500000,
            limit_type: LimitType::Dynamic,
            rd_buf: bm_with_capacity(128),
            wr_buf: bm_with_capacity(128),
            cs_headers: HashMap::with_capacity(4),
            bytes_in: 0,
            bytes_in_sent: 0,
        };
        assert(c.cs_headers@.map_values(|p: MessagePacket| packet_view(p)) =~= Map::empty());
        c
    }

    /// The number of bytes encoded and not flushed yet.
    pub fn get_write_buffer_length(&self) -> (r: usize)
        ensures
            r == self@.wr_buf.len(),
    {
        bm_len(&self.wr_buf)
    }

    /// Takes the bytes encoded so far.
    pub fn flush_write_buffer(&mut self) -> (r: BytesMut)
        ensures
            bytes_of(r) == old(self)@.wr_buf,
            final(self)@ == (ChunkView { wr_buf: Seq::empty(), ..old(self)@ }),
    {
        bm_split(&mut self.wr_buf)
    }

    /// The number of bytes received so far.
    pub fn get_bytes_in(&self) -> (r: u32)
        ensures
            r == self@.bytes_in,
    {
        self.bytes_in
    }

    /// Appends the basic header of format `fmt` for chunk stream `cs_id`.
    fn write_basic_header(w: &mut BytesMut, fmt: u8, cs_id: u32)
        requires
            fmt < 4,
        ensures
            bytes_of(*final(w)) == bytes_of(*old(w)) + basic_header_bytes(fmt, cs_id),
    {
        if 64 > cs_id {
            bm_put_u8(w, fmt * 64 + cs_id as u8);
        } else {
            let tmp = cs_id - 64;
            if 319 > cs_id {
                bm_put_u8(w, fmt * 64);
                bm_put_u8(w, tmp as u8);
            } else {
                bm_put_u8(w, fmt * 64 + 63);
                bm_put_u16(w, tmp as u16);
            }
        }
        assert(bytes_of(*final(w)) =~= bytes_of(*old(w)) + basic_header_bytes(fmt, cs_id));
    }

    /// Writes a message body in pieces of at most the outgoing chunk size:
    /// the first piece follows the message header, each later one a basic
    /// header of format 3.
    fn put_split(&mut self, cs_id: u32, body: BytesMut)
        requires
            old(self).out_chunk_size >= 1,
        ensures
            final(self)@ == (ChunkView {
                wr_buf: old(self)@.wr_buf + split_body(
                    cs_id,
                    bytes_of(body),
                    old(self).out_chunk_size as nat,
                ),
                ..old(self)@
            }),
    {
        let ghost b0 = bytes_of(body);
        let mut body = body;
        let size = self.out_chunk_size as usize;
        let n0 = if bm_len(&body) < size {
            bm_len(&body)
        } else {
            size
        };
        let first = bm_split_to(&mut body, n0);
        bm_put(&mut self.wr_buf, first);
        let ghost target = old(self)@.wr_buf + split_body(cs_id, b0, size as nat);
        assert(bytes_of(body) =~= b0.skip(n0 as int));
        assert(bytes_of(self.wr_buf) + continuation_chunks(cs_id, bytes_of(body), size as nat)
            =~= target);
        while 0 < bm_len(&body)
            invariant
                1 <= size,
                size == old(self).out_chunk_size,
                self@ == (ChunkView { wr_buf: bytes_of(self.wr_buf), ..old(self)@ }),
                bytes_of(self.wr_buf) + continuation_chunks(cs_id, bytes_of(body), size as nat)
                    == target,
            decreases bytes_of(body).len(),
        {
            let ghost w = bytes_of(self.wr_buf);
            let ghost rest = bytes_of(body);
            Self::write_basic_header(&mut self.wr_buf, 3, cs_id);
            let n = if bm_len(&body) < size {
                bm_len(&body)
            } else {
                size
            };
            let piece = bm_split_to(&mut body, n);
            bm_put(&mut self.wr_buf, piece);
            assert(bytes_of(self.wr_buf) + continuation_chunks(cs_id, bytes_of(body), size as nat)
                =~= w + continuation_chunks(cs_id, rest, size as nat));
        }
        assert(bytes_of(self.wr_buf) + continuation_chunks(cs_id, bytes_of(body), size as nat)
            =~= bytes_of(self.wr_buf));
    }

    /// Writes a message frame: the header part, then the body cut into
    /// chunks.
    fn put_frame(&mut self, cs_id: u32, head: BytesMut, body: BytesMut)
        requires
            old(self)@.wf(),
        ensures
            final(self)@ == (ChunkView {
                wr_buf: old(self)@.wr_buf + (bytes_of(head) + split_body(
                    cs_id,
                    bytes_of(body),
                    old(self).out_chunk_size as nat,
                )),
                ..old(self)@
            }),
    {
        let ghost h = bytes_of(head);
        let ghost b = bytes_of(body);
        bm_put(&mut self.wr_buf, head);
        self.put_split(cs_id, body);
        assert(bytes_of(self.wr_buf) =~= old(self)@.wr_buf + (h + split_body(
            cs_id,
            b,
            old(self).out_chunk_size as nat,
        )));
    }

    /// Writes the frame of an AMF0 command whose encoding is `cmd`, its body
    /// cut at the outgoing chunk size.
    pub fn push_command_bytes(&mut self, cs_id: u32, cmd: &[u8])
        requires
            old(self)@.wf(),
        ensures
            final(self)@ == (ChunkView {
                wr_buf: old(self)@.wr_buf + command_frame(
                    cs_id,
                    cmd@,
                    old(self)@.out_chunk_size as nat,
                ),
                ..old(self)@
            }),
    {
        let mut buf = bm_with_capacity(self.out_chunk_size as usize);
        // basic header
        Self::write_basic_header(&mut buf, 0, cs_id);
        // chunk message header of format 0: the timestamp
        bm_put_u16(&mut buf, 0);
        bm_put_u8(&mut buf, 0);
        // the message length
        let len = cmd.len();
        bm_put_u16(&mut buf, (len / 0x100) as u16);
        bm_put_u8(&mut buf, (len % 0x100) as u8);
        // the message type id
        bm_put_u8(&mut buf, msg_type::COMMAND_AMF0);
        // the message stream id
        bm_put_u32(&mut buf, 0);
        let head = bm_split(&mut buf);
        assert(bytes_of(head) =~= command_head(cs_id, cmd@.len()));
        // body
        bm_put_slice(&mut buf, cmd);
        assert(bytes_of(buf) =~= cmd@);
        self.put_frame(cs_id, head, buf);
    }

    /// A buffer holding the header part of a control message frame.
    fn control_head(&self, fmt: u8, cs_id: u32, len: u16, type_id: u8) -> (buf: BytesMut)
        requires
            fmt == 0 || fmt == 1,
        ensures
            bytes_of(buf) == control_frame(fmt, cs_id, len, type_id, Seq::empty()),
    {
        let mut buf = bm_with_capacity(self.out_chunk_size as usize);
        // basic header
        Self::write_basic_header(&mut buf, fmt, cs_id);
        // chunk message header: the timestamp and the first byte of the length
        bm_put_u32(&mut buf, 0);
        // the rest of the length
        bm_put_u16(&mut buf, len);
        // the message type id
        bm_put_u8(&mut buf, type_id);
        if fmt == 0 {
            // the message stream id
            bm_put_u32(&mut buf, 0);
        }
        assert(bytes_of(buf) =~= control_frame(fmt, cs_id, len, type_id, Seq::empty()));
        buf
    }

    /// Encodes `msg` for chunk stream `cs_id` and appends it to the bytes to
    /// send. A chunk size below 128 is ignored; one from 128 up becomes the
    /// outgoing chunk size. A command's values are encoded by the `amf` crate
    /// one after another and framed as `push_command_bytes` frames them: the
    /// body is cut into pieces of at most the outgoing chunk size, each after
    /// the first behind a basic header of format 3. The values the encoder
    /// panics on are left out.
    pub fn push(&mut self, cs_id: u32, msg: Message)
        requires
            old(self)@.wf(),
            old(self)@.push_spec(cs_id, message_view(msg)) is Some,
        ensures
            final(self)@.wf(),
            Some(final(self)@) == old(self)@.push_spec(cs_id, message_view(msg)),
    {
        match msg {
            Message::SetChunkSize { chunk_size } => {
                if 128 > chunk_size {
                    // a chunk size this small breaks the processing of short commands
                    return ;
                }
                self.out_chunk_size = chunk_size;
                let mut buf = self.control_head(0, cs_id, 4, msg_type::SET_CHUNK_SIZE);
                let head = bm_split(&mut buf);
                bm_put_i32(&mut buf, chunk_size);
                proof {
                    lemma_control_frame_split(0, cs_id, 4, msg_type::SET_CHUNK_SIZE, be32_signed(chunk_size));
                    assert(bytes_of(buf) =~= be32_signed(chunk_size));
                    lemma_split_body_short(cs_id, bytes_of(buf), chunk_size as nat);
                }
                self.put_frame(cs_id, head, buf);
            },
            Message::Ack { sequence_number } => {
                let mut buf = self.control_head(1, cs_id, 4, msg_type::ACK);
                let head = bm_split(&mut buf);
                bm_put_u32(&mut buf, sequence_number);
                proof {
                    lemma_control_frame_split(1, cs_id, 4, msg_type::ACK, be32(sequence_number));
                    assert(bytes_of(buf) =~= be32(sequence_number));
                    lemma_split_body_short(cs_id, bytes_of(buf), self.out_chunk_size as nat);
                }
                self.put_frame(cs_id, head, buf);
            },
            Message::WindowAckSize { ack_window_size } => {
                let mut buf = self.control_head(0, cs_id, 4, msg_type::WINDOW_ACK_SIZE);
                let head = bm_split(&mut buf);
                bm_put_u32(&mut buf, ack_window_size);
                proof {
                    lemma_control_frame_split(0, cs_id, 4, msg_type::WINDOW_ACK_SIZE, be32(ack_window_size));
                    assert(bytes_of(buf) =~= be32(ack_window_size));
                    lemma_split_body_short(cs_id, bytes_of(buf), self.out_chunk_size as nat);
                }
                self.put_frame(cs_id, head, buf);
            },
            Message::SetPeerBandwidth { ack_window_size, limit_type } => {
                let mut buf = self.control_head(0, cs_id, 5, msg_type::SET_PEER_BANDWIDTH);
                let head = bm_split(&mut buf);
                bm_put_u32(&mut buf, ack_window_size);
                bm_put_u8(
                    &mut buf,
                    match limit_type {
                        LimitType::Hard => 0,
                        LimitType::Soft => 1,
                        _ => 2,
                    },
                );
                proof {
                    let body = be32(ack_window_size) + seq![limit_type_code(limit_type)];
                    lemma_control_frame_split(0, cs_id, 5, msg_type::SET_PEER_BANDWIDTH, body);
                    assert(bytes_of(buf) =~= body);
                    lemma_split_body_short(cs_id, body, self.out_chunk_size as nat);
                }
                self.put_frame(cs_id, head, buf);
            },
            Message::Command { payload } => {
                let mut cmd: Vec<u8> = Vec::new();
                let mut i: usize = 0;
                assert(payload@.take(0) =~= Seq::<amf::Value>::empty());
                while i < payload.len()
                    invariant
                        i <= payload.len(),
                        amf_encodable(payload@),
                        cmd@ == amf_encodings(payload@.take(i as int)),
                    decreases payload.len() - i,
                {
                    assert(payload@.take(i + 1).drop_last() =~= payload@.take(i as int));
                    assert(payload@.take(i + 1).last() == payload@[i as int]);
                    encode_amf_value(&payload[i], &mut cmd);
                    i = i + 1;
                }
                assert(payload@.take(payload@.len() as int) =~= payload@);
                self.push_command_bytes(cs_id, cmd.as_slice());
            },
            _ => {
                proof {
                    assert(false);
                }
            },
        }
    }
}


impl Chunk {
    /// Removes chunk stream `cs_id` and returns its packet.
    fn take_stream(&mut self, cs_id: u32) -> (r: Option<MessagePacket>)
        ensures
            r is Some <==> old(self)@.streams.contains_key(cs_id),
            r is Some ==> packet_view(r.unwrap()) == old(self)@.streams[cs_id],
            final(self)@ == (ChunkView { streams: old(self)@.streams.remove(cs_id), ..old(self)@ }),
    {
        broadcast use vstd::std_specs::hash::group_hash_axioms;

        let r = self.cs_headers.remove(&cs_id);
        assert(self.cs_headers@ == old(self).cs_headers@.remove(cs_id));
        assert(self@.streams =~= old(self)@.streams.remove(cs_id));
        r
    }

    /// Sets the packet of chunk stream `cs_id`.
    fn set_stream(&mut self, cs_id: u32, p: MessagePacket)
        ensures
            final(self)@ == (ChunkView {
                streams: old(self)@.streams.insert(cs_id, packet_view(p)),
                ..old(self)@
            }),
    {
        broadcast use vstd::std_specs::hash::group_hash_axioms;

        let ghost pv = packet_view(p);
        self.cs_headers.insert(cs_id, p);
        assert(self@.streams =~= old(self)@.streams.insert(cs_id, pv));
    }

    /// Reads three bytes as a big-endian number.
    fn read_u24(b: &mut BytesMut) -> (r: u32)
        requires
            bytes_of(*old(b)).len() >= 3,
        ensures
            r as int == be24_value(bytes_of(*old(b))),
            bytes_of(*final(b)) == bytes_of(*old(b)).skip(3),
    {
        let ghost s = bytes_of(*b);
        let x0 = bm_get_u8(b);
        let x1 = bm_get_u8(b);
        let x2 = bm_get_u8(b);
        assert(bytes_of(*b) =~= s.skip(3));
        (x0 as u32 * 256 + x1 as u32) * 256 + x2 as u32
    }
}


impl Chunk {
    /// Decodes AMF0 values one after another until one fails, and returns them.
    fn parse_amf0_packet(payload: BytesMut) -> (r: Vec<amf::Value>)
        ensures
            r@ == amf0_values(bytes_of(payload)),
    {
        let bytes = bm_as_slice(&payload);
        let mut rst: Vec<amf::Value> = Vec::new();
        let mut pos: usize = 0;
        assert(bytes@.subrange(0, bytes@.len() as int) =~= bytes@);
        assert(rst@ + amf0_values(bytes@) =~= amf0_values(bytes@));
        loop
            invariant
                pos <= bytes@.len(),
                bytes@ == bytes_of(payload),
                rst@ + amf0_values(bytes@.subrange(pos as int, bytes@.len() as int)) == amf0_values(
                    bytes@,
                ),
            decreases bytes@.len() - pos,
        {
            let rest = slice_subrange(bytes, pos, bytes.len());
            let ghost before = rst@;
            match decode_amf0(rest) {
                Some((v, n)) => {
                    rst.push(v);
                    proof {
                        let tail = bytes@.subrange(pos + n, bytes@.len() as int);
                        assert(rest@.subrange(n as int, rest@.len() as int) =~= tail);
                        assert(amf0_values(rest@) == seq![v] + amf0_values(tail));
                        assert(rst@ + amf0_values(tail) =~= before + (seq![v] + amf0_values(tail)));
                    }
                    pos = pos + n;
                },
                None => {
                    assert(rst@ =~= rst@ + amf0_values(rest@));
                    return rst;
                },
            }
        }
    }

    /// Decodes a user control event from `payload` (at least two bytes).
    fn decode_user_control(payload: BytesMut) -> (r: Option<Message>)
        requires
            bytes_of(payload).len() >= 2,
        ensures
            r is None <==> ChunkView::user_control_view(bytes_of(payload)) is None,
            r is Some ==> Some(message_view(r.unwrap())) == ChunkView::user_control_view(
                bytes_of(payload),
            ),
    {
        let mut payload = payload;
        let event_type = bm_get_u16(&mut payload);
        if event_type == user_control_event::SET_BUFFER_LENGTH {
            if bm_len(&payload) < 8 {
                return None;
            }
            let ghost q = bytes_of(payload);
            let stream_id = bm_get_u32(&mut payload);
            let length = bm_get_u32(&mut payload);
            assert(bytes_of(payload) =~= q.skip(8));
            assert(q.skip(4) =~= q.subrange(4, q.len() as int));
            Some(Message::UserControl(UserControlEvent::SetBufferLength { stream_id, length }))
        } else if event_type == user_control_event::STREAM_BEGIN || event_type
            == user_control_event::STREAM_EOF || event_type == user_control_event::STREAM_DRY
            || event_type == user_control_event::STREAM_IS_RECORDED || event_type
            == user_control_event::PING_REQUEST || event_type == user_control_event::PING_RESPONSE {
            if bm_len(&payload) < 4 {
                return None;
            }
            let x = bm_get_u32(&mut payload);
            let ev = if event_type == user_control_event::STREAM_BEGIN {
                UserControlEvent::StreamBegin { stream_id: x }
            } else if event_type == user_control_event::STREAM_EOF {
                UserControlEvent::StreamEoF { stream_id: x }
            } else if event_type == user_control_event::STREAM_DRY {
                UserControlEvent::StreamDry { stream_id: x }
            } else if event_type == user_control_event::STREAM_IS_RECORDED {
                UserControlEvent::StreamIsRecorded { stream_id: x }
            } else if event_type == user_control_event::PING_REQUEST {
                UserControlEvent::PingRequest { timestamp: x }
            } else {
                UserControlEvent::PingResponse { timestamp: x }
            };
            Some(Message::UserControl(ev))
        } else {
            Some(Message::UserControl(UserControlEvent::Unknown { id: event_type, payload }))
        }
    }

    /// Decodes a message other than an aggregate from its header and payload.
    fn decode_simple(header: Header, payload: BytesMut) -> (r: Option<Message>)
        ensures
            r is None <==> ChunkView::decode_simple(header, bytes_of(payload)) is None,
            r is Some ==> Some(message_view(r.unwrap())) == ChunkView::decode_simple(
                header,
                bytes_of(payload),
            ),
    {
        let mut payload = payload;
        let t = header.type_id;
        if t == msg_type::SET_CHUNK_SIZE {
            if bm_len(&payload) < 4 {
                return None;
            }
            let chunk_size = bm_get_i32(&mut payload);
            Some(Message::SetChunkSize { chunk_size })
        } else if t == msg_type::ABORT {
            if bm_len(&payload) < 4 {
                return None;
            }
            let chunk_stream_id = bm_get_u32(&mut payload);
            Some(Message::Abort { chunk_stream_id })
        } else if t == msg_type::ACK {
            if bm_len(&payload) < 4 {
                return None;
            }
            let sequence_number = bm_get_u32(&mut payload);
            Some(Message::Ack { sequence_number })
        } else if t == msg_type::WINDOW_ACK_SIZE {
            if bm_len(&payload) < 4 {
                return None;
            }
            let ack_window_size = bm_get_u32(&mut payload);
            Some(Message::WindowAckSize { ack_window_size })
        } else if t == msg_type::SET_PEER_BANDWIDTH {
            if bm_len(&payload) < 5 {
                return None;
            }
            let ghost p = bytes_of(payload);
            let ack_window_size = bm_get_u32(&mut payload);
            let code = bm_get_u8(&mut payload);
            assert(code == p[4]);
            let limit_type = match code {
                0 => LimitType::Hard,
                1 => LimitType::Soft,
                2 => LimitType::Dynamic,
                n => LimitType::Unknown(n),
            };
            Some(Message::SetPeerBandwidth { ack_window_size, limit_type })
        } else if t == msg_type::USER_CONTROL {
            if bm_len(&payload) < 2 {
                return None;
            }
            Self::decode_user_control(payload)
        } else if t == msg_type::COMMAND_AMF0 {
            let rst = Self::parse_amf0_packet(payload);
            Some(Message::Command { payload: rst })
        } else if t == msg_type::DATA_AMF0 {
            let rst = Self::parse_amf0_packet(payload);
            Some(Message::Data { payload: rst })
        } else if t == msg_type::AUDIO {
            if bm_len(&payload) < 1 {
                return None;
            }
            let control = bm_get_u8(&mut payload);
            Some(Message::Audio { delta: header.timestamp_delta, control, payload })
        } else if t == msg_type::VIDEO {
            if bm_len(&payload) < 1 {
                return None;
            }
            let control = bm_get_u8(&mut payload);
            Some(Message::Video { delta: header.timestamp_delta, control, payload })
        } else {
            Some(Message::Unknown { id: t, payload })
        }
    }
}


impl Chunk {
    /// Empties the payload of chunk stream `cs_id`, if it exists.
    fn clear_payload(&mut self, cs_id: u32)
        ensures
            final(self)@ == old(self)@.clear_payload(cs_id),
    {
        if let Some(mut msg) = self.take_stream(cs_id) {
            bm_clear(&mut msg.payload);
            self.set_stream(cs_id, msg);
            assert(old(self)@.streams.remove(cs_id).insert(
                cs_id,
                PacketView { payload: Seq::empty(), ..old(self)@.streams[cs_id] },
            ) =~= old(self)@.streams.insert(
                cs_id,
                PacketView { payload: Seq::empty(), ..old(self)@.streams[cs_id] },
            ));
        } else {
            assert(old(self)@.streams.remove(cs_id) =~= old(self)@.streams);
        }
    }

    /// Acts on a decoded message: control messages change the settings, a
    /// ping request is answered, and the others are returned.
    fn react(&mut self, msg: Message) -> (r: Option<Result<Option<Message>, ChunkError>>)
        requires
            old(self)@.wf(),
        ensures
            r is None <==> old(self)@.react(message_view(msg)) is None,
            r is Some ==> old(self)@.react(message_view(msg)) == Some(
                (final(self)@, poll_view(r.unwrap())),
            ),
            r is Some ==> final(self)@.wf(),
    {
        match msg {
            Message::SetChunkSize { chunk_size } => {
                if 1 > chunk_size {
                    return Some(Err(ChunkError::WrongInput));
                }
                self.in_chunk_size = chunk_size;
                let capacity = bm_capacity(&self.rd_buf);
                if chunk_size as usize > capacity {
                    bm_reserve(&mut self.rd_buf, (chunk_size as usize) - capacity);
                }
                Some(Ok(Some(Message::SetChunkSize { chunk_size })))
            },
            Message::Abort { chunk_stream_id } => {
                self.clear_payload(chunk_stream_id);
                Some(Ok(None))
            },
            Message::Ack { sequence_number } => Some(Ok(None)),
            Message::WindowAckSize { ack_window_size } => {
                self.window_size = ack_window_size;
                Some(Ok(None))
            },
            Message::SetPeerBandwidth { ack_window_size, limit_type } => {
                if self.window_size != ack_window_size {
                    self.push(2, Message::WindowAckSize { ack_window_size });
                }
                self.window_size = ack_window_size;
                self.limit_type = limit_type;
                Some(Ok(None))
            },
            Message::UserControl(UserControlEvent::PingRequest { timestamp }) => {
                // the answer, a ping response, is a message kind that `push`
                // does not support
                None
            },
            m => Some(Ok(Some(m))),
        }
    }

    /// Reads the next sub-message of an aggregate message: its header, its
    /// payload, and the back pointer after it, which is skipped.
    fn read_sub_message(payload: &mut BytesMut) -> (r: Option<MessagePacket>)
        requires
            bytes_of(*old(payload)).len() > 0,
        ensures
            ({
                let rest = bytes_of(*old(payload));
                let h = ChunkView::sub_header(rest);
                let r1 = rest.skip(11);
                match r {
                    None => rest.len() < 11 || h.length > r1.len() || r1.len() - h.length < 4,
                    Some(sub) => {
                        &&& rest.len() >= 11
                        &&& h.length <= r1.len()
                        &&& r1.len() - h.length >= 4
                        &&& sub.header == h
                        &&& bytes_of(sub.payload) == r1.take(h.length as int)
                        &&& bytes_of(*final(payload)) == r1.skip(h.length as int).skip(4)
                    },
                }
            }),
    {
        if bm_len(payload) < 11 {
            return None;
        }
        let ghost rest = bytes_of(*payload);
        let type_id = bm_get_u8(payload);
        let length = Self::read_u24(payload);
        let timestamp = bm_get_u32(payload);
        let stream_id = Self::read_u24(payload);
        assert(bytes_of(*payload) =~= rest.skip(11));
        let mut sub = MessagePacket::new(
            Header { type_id, length, timestamp, stream_id, timestamp_delta: 0 },
        );
        assert(sub.header == ChunkView::sub_header(rest)) by {
            assert(rest.skip(1).skip(3) =~= rest.skip(4));
            assert(rest.skip(4).subrange(4, rest.skip(4).len() as int) =~= rest.skip(8));
        }
        if length as usize > bm_len(payload) {
            return None;
        }
        let part = bm_split_to(payload, length as usize);
        bm_put(&mut sub.payload, part);
        if bm_len(payload) < 4 {
            return None;
        }
        let _back_pointer = bm_get_u32(payload);
        assert(bytes_of(sub.payload) =~= rest.skip(11).take(length as int));
        Some(sub)
    }

    /// Processes the sub-messages of an aggregate message one after another,
    /// then acts on the aggregate of the messages they returned.
    fn process_aggregate(&mut self, payload: BytesMut) -> (r: Option<
        Result<Option<Message>, ChunkError>,
    >)
        requires
            old(self)@.wf(),
        ensures
            r is None <==> old(self)@.process_spec(
                Header { type_id: msg_type::AGGREGATE, ..arbitrary_header() },
                bytes_of(payload),
            ) is None,
            r is Some ==> old(self)@.process_spec(
                Header { type_id: msg_type::AGGREGATE, ..arbitrary_header() },
                bytes_of(payload),
            ) == Some((final(self)@, poll_view(r.unwrap()))),
            r is Some ==> final(self)@.wf(),
        decreases bytes_of(payload).len(), 0int,
    {
        proof {
            reveal(ChunkView::process_spec);
        }
        let ghost p0 = bytes_of(payload);
        let mut buf = payload;
        let mut rst = Vec::<Message>::new();
        assert(rst@.map_values(|m: Message| message_view(m)) =~= Seq::<MessageView>::empty());
        while 0 < bm_len(&buf)
            invariant
                self@.wf(),
                p0 == bytes_of(payload),
                bytes_of(buf).len() <= p0.len(),
                old(self)@.aggregate_spec(p0, Seq::empty()) == self@.aggregate_spec(
                    bytes_of(buf),
                    rst@.map_values(|m: Message| message_view(m)),
                ),
            decreases bytes_of(buf).len(),
        {
            proof {
                reveal(ChunkView::process_spec);
            }
            let ghost rest = bytes_of(buf);
            let ghost acc = rst@.map_values(|m: Message| message_view(m));
            let ghost v = self@;
            let sub = match Self::read_sub_message(&mut buf) {
                None => {
                    assert(v.aggregate_spec(rest, acc) is None);
                    return None;
                },
                Some(sub) => sub,
            };
            assert(bytes_of(sub.payload).len() < p0.len());
            match self.process_message(sub.header, sub.payload) {
                None => {
                    assert(v.aggregate_spec(rest, acc) is None);
                    return None;
                },
                Some(Ok(Some(m))) => {
                    rst.push(m);
                    assert(rst@.map_values(|m: Message| message_view(m)) =~= acc.push(
                        message_view(m),
                    ));
                },
                Some(Ok(None)) => {},
                Some(Err(e)) => {
                    return Some(Err(e));
                },
            }
        }
        let ghost acc = rst@.map_values(|m: Message| message_view(m));
        let agg = Message::Aggregate(rst);
        proof {
            lemma_aggregate_view(rst, acc);
        }
        self.react(agg)
    }

    /// Decodes and acts on a complete message of header `header`.
    fn process_message(&mut self, header: Header, payload: BytesMut) -> (r: Option<
        Result<Option<Message>, ChunkError>,
    >)
        requires
            old(self)@.wf(),
        ensures
            r is None <==> old(self)@.process_spec(header, bytes_of(payload)) is None,
            r is Some ==> old(self)@.process_spec(header, bytes_of(payload)) == Some(
                (final(self)@, poll_view(r.unwrap())),
            ),
            r is Some ==> final(self)@.wf(),
        decreases bytes_of(payload).len(), 1int,
    {
        proof {
            reveal(ChunkView::process_spec);
        }
        if header.type_id == msg_type::AGGREGATE {
            self.process_aggregate(payload)
        } else {
            match Self::decode_simple(header, payload) {
                None => None,
                Some(m) => self.react(m),
            }
        }
    }
}


impl Chunk {
    /// Decodes the basic header at the start of the received bytes.
    fn parse_basic_header(&mut self) -> (ok: bool)
        requires
            old(self)@.rd_buf.len() > 0,
        ensures
            match parse_basic_header(old(self)@.rd_buf) {
                None => !ok,
                Some((fmt, cs_id, k)) => ok && final(self)@ == (ChunkView {
                    state: ChunkState::BasicHeader { fmt, cs_id },
                    rd_buf: old(self)@.rd_buf.skip(k as int),
                    ..old(self)@
                }),
            },
    {
        let ghost rd = bytes_of(self.rd_buf);
        let n = bm_get_u8(&mut self.rd_buf);
        let fmt = n / 64;
        let mut i: u32 = (n % 64) as u32;
        if 0x3f == n || 0 == n {
            if bm_len(&self.rd_buf) < 1 {
                return false;
            }
            i = bm_get_u8(&mut self.rd_buf) as u32 + 64;
        }
        if 0x3f == n {
            if bm_len(&self.rd_buf) < 1 {
                return false;
            }
            i = i | ((bm_get_u8(&mut self.rd_buf) as u32) << 8u32);
        }
        self.state = ChunkState::BasicHeader { fmt, cs_id: i };
        proof {
            if 0x3f == n {
                assert(bytes_of(self.rd_buf) =~= rd.skip(3));
            } else if 0 == n {
                assert(bytes_of(self.rd_buf) =~= rd.skip(2));
            } else {
                assert(bytes_of(self.rd_buf) =~= rd.skip(1));
            }
        }
        true
    }

    /// Reads a message header of format `fmt` (0, 1 or 2) and applies it to
    /// the header `h` of its chunk stream.
    fn read_message_header(rd: &mut BytesMut, h: Header, fmt: u8) -> (r: Option<Header>)
        requires
            fmt < 3,
            bytes_of(*old(rd)).len() >= message_header_len(fmt),
        ensures
            match update_header(h, bytes_of(*old(rd)), fmt) {
                None => r is None,
                Some((h2, k)) => r == Some(h2) && bytes_of(*final(rd)) == bytes_of(*old(rd)).skip(
                    k as int,
                ),
            },
    {
        let ghost s = bytes_of(*rd);
        let mut h = h;
        let timestamp = Self::read_u24(rd);
        if TIMESTAMP_MAX > timestamp {
            if 0 == fmt {
                h.timestamp = timestamp;
            } else {
                h.timestamp_delta = timestamp;
            }
        }
        if 2 != fmt {
            let length = Self::read_u24(rd);
            h.length = length;
            let type_id = bm_get_u8(rd);
            h.type_id = type_id;
            assert(s.skip(3).skip(3) =~= s.skip(6));
            assert(bytes_of(*rd) =~= s.skip(7));
        }
        if 0 == fmt {
            let stream_id = bm_get_u32(rd);
            h.stream_id = stream_id;
            assert(bytes_of(*rd) =~= s.skip(11));
        }
        let ghost k = message_header_len(fmt);
        assert(bytes_of(*rd) =~= s.skip(k as int));
        if TIMESTAMP_MAX <= timestamp {
            if bm_len(rd) < 4 {
                return None;
            }
            let x = bm_get_u32(rd);
            if 0 == fmt {
                h.timestamp = x;
            } else {
                h.timestamp_delta = x;
            }
            assert(bytes_of(*rd) =~= s.skip((k + 4) as int));
        }
        Some(h)
    }

    /// Hands the complete message of chunk stream `cs_id` to processing, then
    /// empties its payload.
    fn deliver(&mut self, cs_id: u32) -> (r: Option<Result<Option<Message>, ChunkError>>)
        requires
            old(self)@.wf(),
            old(self)@.streams.contains_key(cs_id),
        ensures
            r is None <==> old(self)@.deliver(cs_id) is None,
            r is Some ==> old(self)@.deliver(cs_id) == Some((final(self)@, poll_view(r.unwrap()))),
            r is Some ==> final(self)@.wf(),
    {
        proof {
            reveal(ChunkView::deliver);
        }
        broadcast use vstd::std_specs::hash::group_hash_axioms;

        let (header, payload) = {
            let msg = self.cs_headers.get(&cs_id).unwrap();
            (msg.header, bm_clone(&msg.payload))
        };
        assert(packet_view(self.cs_headers@[cs_id]) == self@.streams[cs_id]);
        let rst = self.process_message(header, payload);
        match rst {
            None => None,
            Some(r) => {
                self.clear_payload(cs_id);
                self.state = ChunkState::Uninitialized;
                Some(r)
            },
        }
    }

    /// Takes the next piece of payload of chunk stream `cs_id`, and hands the
    /// message on once it is complete.
    fn data_stage(&mut self, cs_id: u32) -> (r: Option<Result<Option<Message>, ChunkError>>)
        requires
            old(self)@.wf(),
        ensures
            r is None <==> old(self)@.data_stage(cs_id) is None,
            r is Some ==> old(self)@.data_stage(cs_id) == Some(
                (final(self)@, poll_view(r.unwrap())),
            ),
            r is Some ==> final(self)@.wf(),
    {
        proof {
            reveal(ChunkView::data_stage);
        }
        let ghost v = self@;
        let mut msg = match self.take_stream(cs_id) {
            None => {
                return None;
            },
            Some(msg) => msg,
        };
        let ghost p = packet_view(msg);
        let timestamp = match msg.header.timestamp.checked_add(msg.header.timestamp_delta) {
            None => {
                return None;
            },
            Some(t) => t,
        };
        msg.header.timestamp = timestamp;
        let length = msg.header.length as usize;
        let plen = bm_len(&msg.payload);
        if plen > length {
            return None;
        }
        let size = self.in_chunk_size as usize;
        let rest = length - plen;
        let left = if size < rest {
            size
        } else {
            rest
        };
        if left > bm_len(&self.rd_buf) {
            self.set_stream(cs_id, msg);
            assert(v.streams.remove(cs_id).insert(cs_id, packet_view(msg)) =~= v.streams.insert(
                cs_id,
                packet_view(msg),
            ));
            return Some(Ok(None));
        }
        let part = bm_split_to(&mut self.rd_buf, left);
        bm_put(&mut msg.payload, part);
        let full = bm_len(&msg.payload) == length;
        self.set_stream(cs_id, msg);
        assert(v.streams.remove(cs_id).insert(cs_id, packet_view(msg)) =~= v.streams.insert(
            cs_id,
            packet_view(msg),
        ));
        if !full {
            self.state = ChunkState::Uninitialized;
            return Some(Ok(None));
        }
        self.deliver(cs_id)
    }

    /// Decodes the message header of format `fmt` for chunk stream `cs_id`,
    /// then goes on with the chunk data.
    fn header_stage(&mut self, fmt: u8, cs_id: u32) -> (r: Option<Result<Option<Message>, ChunkError>>)
        requires
            old(self)@.wf(),
            fmt < 4,
        ensures
            r is None <==> old(self)@.header_stage(fmt, cs_id) is None,
            r is Some ==> old(self)@.header_stage(fmt, cs_id) == Some(
                (final(self)@, poll_view(r.unwrap())),
            ),
            r is Some ==> final(self)@.wf(),
    {
        proof {
            reveal(ChunkView::header_stage);
        }
        let ghost v = self@;
        let len = bm_len(&self.rd_buf);
        if 0 == fmt && 11 > len {
            return Some(Ok(None));
        } else if 1 == fmt && 7 > len {
            return Some(Ok(None));
        } else if 2 == fmt && 3 > len {
            return Some(Ok(None));
        }
        if 3 != fmt {
            match self.take_stream(cs_id) {
                Some(mut msg) => {
                    let header = match Self::read_message_header(&mut self.rd_buf, msg.header, fmt) {
                        None => {
                            return None;
                        },
                        Some(header) => header,
                    };
                    msg.header = header;
                    if 2 != fmt {
                        let capacity = bm_capacity(&msg.payload);
                        if header.length as usize > capacity {
                            bm_reserve(&mut msg.payload, (header.length as usize) - capacity);
                        }
                    }
                    self.set_stream(cs_id, msg);
                    assert(v.streams.remove(cs_id).insert(cs_id, packet_view(msg)) =~= v.streams.insert(
                        cs_id,
                        packet_view(msg),
                    ));
                },
                None => {
                    if 0 == fmt {
                        let ghost rd = bytes_of(self.rd_buf);
                        let timestamp = Self::read_u24(&mut self.rd_buf);
                        let length = Self::read_u24(&mut self.rd_buf);
                        let type_id = bm_get_u8(&mut self.rd_buf);
                        let stream_id = bm_get_u32(&mut self.rd_buf);
                        let header = Header {
                            timestamp,
                            length,
                            type_id,
                            stream_id,
                            timestamp_delta: 0,
                        };
                        assert(rd.skip(3).skip(3) =~= rd.skip(6));
                        assert(bytes_of(self.rd_buf) =~= rd.skip(11));
                        assert(header == new_header(rd));
                        self.set_stream(cs_id, MessagePacket::new(header));
                        assert(v.streams.remove(cs_id) =~= v.streams);
                    } else {
                        assert(v.streams.remove(cs_id) =~= v.streams);
                        return Some(Err(ChunkError::UnknownChunkStream));
                    }
                },
            }
        }
        self.state = ChunkState::ChunkMessageHeader { cs_id };
        self.data_stage(cs_id)
    }

    /// Decodes what it can of the received bytes: at most one chunk, and the
    /// message it completes. `None` stands for the inputs on which `poll`
    /// is not defined (see `poll`); the state is then meaningless.
    pub fn try_poll(&mut self) -> (r: Option<Result<Option<Message>, ChunkError>>)
        requires
            old(self)@.wf(),
        ensures
            r is None <==> old(self)@.poll_spec() is None,
            r is Some ==> old(self)@.poll_spec() == Some((final(self)@, poll_view(r.unwrap()))),
            r is Some ==> final(self)@.wf(),
    {
        match self.state {
            ChunkState::Uninitialized => {
                if 0 == bm_len(&self.rd_buf) {
                    return Some(Ok(None));
                }
                if !self.parse_basic_header() {
                    return None;
                }
                match self.state {
                    ChunkState::BasicHeader { fmt, cs_id } => self.header_stage(fmt, cs_id),
                    _ => {
                        proof {
                            assert(false);
                        }
                        None
                    },
                }
            },
            ChunkState::BasicHeader { fmt, cs_id } => self.header_stage(fmt, cs_id),
            ChunkState::ChunkMessageHeader { cs_id } => self.data_stage(cs_id),
        }
    }

    /// Decodes what it can of the received bytes: at most one chunk, and the
    /// message it completes, if any. Control messages are acted on and not
    /// returned. It is defined where `poll_spec` is; `try_poll` tells the
    /// other inputs apart.
    pub fn poll(&mut self) -> (r: Result<Option<Message>, ChunkError>)
        requires
            old(self)@.wf(),
            old(self)@.poll_spec() is Some,
        ensures
            old(self)@.poll_spec() == Some((final(self)@, poll_view(r))),
            final(self)@.wf(),
    {
        match self.try_poll() {
            Some(r) => r,
            None => {
                proof {
                    assert(false);
                }
                Ok(None)
            },
        }
    }

    /// Whether `buffering` is defined on `len` more bytes.
    pub fn can_buffer(&self, len: usize) -> (r: bool)
        ensures
            r == self@.buffering_defined(len as nat),
    {
        (self.bytes_in as u64) + ((len as u32) as u64) <= u32::MAX as u64
            && (self.bytes_in_sent as u64) + ((self.window_size / 10) as u64) <= u32::MAX as u64
    }

    /// Queues received bytes for decoding and counts them; once the count has
    /// moved on by more than a tenth of the window since the last
    /// acknowledgement, an acknowledgement of the count is written.
    pub fn buffering(&mut self, buf: &[u8])
        requires
            old(self)@.wf(),
            old(self)@.buffering_defined(buf@.len()),
        ensures
            final(self)@ == old(self)@.buffering_spec(buf@),
            final(self)@.wf(),
    {
        bm_extend(&mut self.rd_buf, buf);
        self.bytes_in = self.bytes_in + buf.len() as u32;
        if self.bytes_in > self.bytes_in_sent + self.window_size / 10 {
            self.bytes_in_sent = self.bytes_in;
            self.push(2, Message::Ack { sequence_number: self.bytes_in });
        }
    }
}

} // verus!
