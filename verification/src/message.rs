//! RTMP messages and the chunk message header (5.3.1.2).

pub mod msg_type;
pub mod user_control_event;

use bytes::BytesMut;
use vstd::prelude::*;

use crate::buffer::{bm_put_u16, bm_put_u32, bm_put_u8, bm_with_capacity, bytes_of};
use crate::chunk::LimitType;
use crate::wire::{be24, be32};

verus! {

/// The largest timestamp that fits the three-byte field; larger ones go to
/// the extended timestamp.
pub const TIMESTAMP_MAX: u32 = 0xFFFFFF;

#[derive(Debug, Clone, Copy)]
pub struct Header {
    pub timestamp: u32,
    pub length: u32,
    pub type_id: u8,
    pub stream_id: u32,
    pub timestamp_delta: u32,
}

#[derive(Debug)]
pub struct MessagePacket {
    pub header: Header,
    pub payload: BytesMut,
}

impl MessagePacket {
    pub fn new(header: Header) -> (r: Self)
        ensures
            r.header == header,
            bytes_of(r.payload) == Seq::<u8>::empty(),
    {
        MessagePacket { header, payload: bm_with_capacity(header.length as usize) }
    }
}

impl Header {
    /// The chunk message header of format `fmt` for this header: the
    /// timestamp (or its delta), then for formats 0 and 1 the length and the
    /// type id, for format 0 the stream id, and the extended timestamp when
    /// the timestamp does not fit three bytes. Format 3 has none.
    pub open spec fn chunk_message_header(self, fmt: u8) -> Seq<u8> {
        if fmt == 3 {
            Seq::empty()
        } else {
            let extended = TIMESTAMP_MAX < self.timestamp;
            let ts = if extended {
                seq![0xFFu8, 0xFFu8, 0xFFu8]
            } else if fmt == 0 {
                be24(self.timestamp)
            } else {
                be24(self.timestamp_delta)
            };
            let body = if fmt < 2 {
                be24(self.length) + seq![self.type_id] + if fmt < 1 {
                    be32(self.stream_id)
                } else {
                    Seq::empty()
                }
            } else {
                Seq::empty()
            };
            let ext = if extended {
                if fmt == 0 {
                    be32(self.timestamp)
                } else {
                    be32(self.timestamp_delta)
                }
            } else {
                Seq::empty()
            };
            ts + body + ext
        }
    }

    /// Appends the chunk message header of format `fmt` to `w`.
    pub fn write_chunk_message_header(&self, w: &mut BytesMut, fmt: u8)
        ensures
            bytes_of(*final(w)) == bytes_of(*old(w)) + self.chunk_message_header(fmt),
    {
        if 3 == fmt {
            assert(bytes_of(*old(w)) + Seq::<u8>::empty() =~= bytes_of(*old(w)));
            return ;
        }
        let ghost w0 = bytes_of(*w);
        // timestamp

        if TIMESTAMP_MAX < self.timestamp {
            bm_put_u16(w, 0xFFFF);
            bm_put_u8(w, 0xFF);
        } else if 0 == fmt {
            bm_put_u8(w, ((self.timestamp / 0x10000) % 0x100) as u8);
            bm_put_u8(w, ((self.timestamp / 0x100) % 0x100) as u8);
            bm_put_u8(w, (self.timestamp % 0x100) as u8);
        } else {
            bm_put_u8(w, ((self.timestamp_delta / 0x10000) % 0x100) as u8);
            bm_put_u8(w, ((self.timestamp_delta / 0x100) % 0x100) as u8);
            bm_put_u8(w, (self.timestamp_delta % 0x100) as u8);
        }
        let ghost w1 = bytes_of(*w);
        if 2 > fmt {
            // message length
            bm_put_u8(w, ((self.length / 0x10000) % 0x100) as u8);
            bm_put_u8(w, ((self.length / 0x100) % 0x100) as u8);
            bm_put_u8(w, (self.length % 0x100) as u8);
            // message type id
            bm_put_u8(w, self.type_id);
            if 1 > fmt {
                // message stream id
                bm_put_u32(w, self.stream_id);
            }
        }
        let ghost w2 = bytes_of(*w);
        // extended timestamp

        if TIMESTAMP_MAX < self.timestamp {
            if 0 == fmt {
                bm_put_u32(w, self.timestamp);
            } else {
                bm_put_u32(w, self.timestamp_delta);
            }
        }
        let h = *self;
        let ghost extended = TIMESTAMP_MAX < h.timestamp;
        let ghost ts = if extended {
            seq![0xFFu8, 0xFFu8, 0xFFu8]
        } else if fmt == 0 {
            be24(h.timestamp)
        } else {
            be24(h.timestamp_delta)
        };
        assert(w1 =~= w0 + ts);
        let ghost body = if fmt < 2 {
            be24(h.length) + seq![h.type_id] + if fmt < 1 {
                be32(h.stream_id)
            } else {
                Seq::<u8>::empty()
            }
        } else {
            Seq::<u8>::empty()
        };
        assert(w2 =~= w1 + body);
        let ghost ext = if extended {
            if fmt == 0 {
                be32(h.timestamp)
            } else {
                be32(h.timestamp_delta)
            }
        } else {
            Seq::<u8>::empty()
        };
        assert(bytes_of(*w) =~= w2 + ext);
        assert(bytes_of(*w) =~= w0 + h.chunk_message_header(fmt));
    }
}

#[derive(Debug)]
pub enum UserControlEvent {
    StreamBegin { stream_id: u32 },
    StreamEoF { stream_id: u32 },
    StreamDry { stream_id: u32 },
    SetBufferLength { stream_id: u32, length: u32 },
    StreamIsRecorded { stream_id: u32 },
    PingRequest { timestamp: u32 },
    PingResponse { timestamp: u32 },
    Unknown { id: u16, payload: BytesMut },
}

#[allow(inconsistent_fields)]
#[derive(Debug)]
pub enum Message {
    SetChunkSize { chunk_size: i32 },
    Abort { chunk_stream_id: u32 },
    Ack { sequence_number: u32 },
    WindowAckSize { ack_window_size: u32 },
    SetPeerBandwidth { ack_window_size: u32, limit_type: LimitType },
    UserControl(UserControlEvent),
    Command { payload: Vec<amf::Value> },
    Data { payload: Vec<amf::Value> },
    SharedObject { header: Header, payload: BytesMut },
    Audio { delta: u32, control: u8, payload: BytesMut },
    Video { delta: u32, control: u8, payload: BytesMut },
    Aggregate(Vec<Message>),
    Unknown { id: u8, payload: BytesMut },
}

/// The model of a `UserControlEvent`.
pub enum EventView {
    StreamBegin { stream_id: u32 },
    StreamEoF { stream_id: u32 },
    StreamDry { stream_id: u32 },
    SetBufferLength { stream_id: u32, length: u32 },
    StreamIsRecorded { stream_id: u32 },
    PingRequest { timestamp: u32 },
    PingResponse { timestamp: u32 },
    Unknown { id: u16, payload: Seq<u8> },
}

/// The model of a `Message`.
#[allow(inconsistent_fields)]
pub enum MessageView {
    SetChunkSize { chunk_size: i32 },
    Abort { chunk_stream_id: u32 },
    Ack { sequence_number: u32 },
    WindowAckSize { ack_window_size: u32 },
    SetPeerBandwidth { ack_window_size: u32, limit_type: LimitType },
    UserControl(EventView),
    Command { values: Seq<amf::Value> },
    Data { values: Seq<amf::Value> },
    SharedObject { header: Header, payload: Seq<u8> },
    Audio { delta: u32, control: u8, payload: Seq<u8> },
    Video { delta: u32, control: u8, payload: Seq<u8> },
    Aggregate(Seq<MessageView>),
    Unknown { id: u8, payload: Seq<u8> },
}

pub open spec fn event_view(e: UserControlEvent) -> EventView {
    match e {
        UserControlEvent::StreamBegin { stream_id } => EventView::StreamBegin { stream_id },
        UserControlEvent::StreamEoF { stream_id } => EventView::StreamEoF { stream_id },
        UserControlEvent::StreamDry { stream_id } => EventView::StreamDry { stream_id },
        UserControlEvent::SetBufferLength { stream_id, length } => EventView::SetBufferLength {
            stream_id,
            length,
        },
        UserControlEvent::StreamIsRecorded { stream_id } => EventView::StreamIsRecorded {
            stream_id,
        },
        UserControlEvent::PingRequest { timestamp } => EventView::PingRequest { timestamp },
        UserControlEvent::PingResponse { timestamp } => EventView::PingResponse { timestamp },
        UserControlEvent::Unknown { id, payload } => EventView::Unknown {
            id,
            payload: bytes_of(payload),
        },
    }
}

pub open spec fn message_view(m: Message) -> MessageView
    decreases m,
{
    match m {
        Message::SetChunkSize { chunk_size } => MessageView::SetChunkSize { chunk_size },
        Message::Abort { chunk_stream_id } => MessageView::Abort { chunk_stream_id },
        Message::Ack { sequence_number } => MessageView::Ack { sequence_number },
        Message::WindowAckSize { ack_window_size } => MessageView::WindowAckSize {
            ack_window_size,
        },
        Message::SetPeerBandwidth { ack_window_size, limit_type } => MessageView::SetPeerBandwidth {
            ack_window_size,
            limit_type,
        },
        Message::UserControl(e) => MessageView::UserControl(event_view(e)),
        Message::Command { payload } => MessageView::Command { values: payload@ },
        Message::Data { payload } => MessageView::Data { values: payload@ },
        Message::SharedObject { header, payload } => MessageView::SharedObject {
            header,
            payload: bytes_of(payload),
        },
        Message::Audio { delta, control, payload } => MessageView::Audio {
            delta,
            control,
            payload: bytes_of(payload),
        },
        Message::Video { delta, control, payload } => MessageView::Video {
            delta,
            control,
            payload: bytes_of(payload),
        },
        Message::Aggregate(v) => MessageView::Aggregate(
            Seq::new(
                v@.len(),
                |i: int|
                    if 0 <= i < v@.len() {
                        message_view(v@[i])
                    } else {
                        MessageView::Ack { sequence_number: 0 }
                    },
            ),
        ),
        Message::Unknown { id, payload } => MessageView::Unknown { id, payload: bytes_of(payload) },
    }
}

} // verus!
