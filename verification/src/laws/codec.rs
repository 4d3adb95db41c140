//! The encoder and the decoder agree: what one writes, the other reads back.

use vstd::prelude::*;

use crate::amf_codec::{amf0_read, amf0_values, amf_encoding, amf_encodings};
use crate::chunk::{basic_header_agrees, basic_header_bytes, command_frame, command_head, lemma_split_body_short, control_frame, limit_type_code, limit_type_of, new_header, parse_basic_header, update_header, ChunkState, ChunkView, ErrorView, LimitType, PacketView};
use crate::message::msg_type;
use crate::message::{Header, MessageView, TIMESTAMP_MAX};
use crate::wire::{be16, be16_value, be24, be32, be32_signed, be24_value, be32_value, lemma_be16_roundtrip, lemma_be24_roundtrip, lemma_be32_roundtrip, lemma_be32_signed_roundtrip};

verus! {

/// The basic header that the encoder writes for format `fmt` and chunk
/// stream `cs_id` decodes to that format and chunk stream, taking all its
/// bytes, exactly where `basic_header_agrees` holds, whatever follows it.
pub proof fn law_basic_header_roundtrip(fmt: u8, cs_id: u32, rest: Seq<u8>)
    requires
        fmt < 4,
    ensures
        parse_basic_header(basic_header_bytes(fmt, cs_id) + rest) == Some(
            (fmt, cs_id, basic_header_bytes(fmt, cs_id).len()),
        ) <==> basic_header_agrees(fmt, cs_id),
{
    let b = basic_header_bytes(fmt, cs_id);
    let s = b + rest;
    assert(s[0] == b[0]);
    if cs_id >= 64 {
        assert(s[1] == b[1]);
    }
    if cs_id >= 319 {
        assert(s[2] == b[2]);
    }
}

/// The header that the decoder holds for a chunk stream whose last header was
/// `prev` after it reads the chunk message header of format `fmt` written
/// for `h`: format 0 carries everything but the delta, format 1 the delta,
/// the length and the type, format 2 the delta alone.
pub open spec fn header_as_read(prev: Header, h: Header, fmt: u8) -> Header {
    if fmt == 0 {
        Header { timestamp_delta: prev.timestamp_delta, ..h }
    } else if fmt == 1 {
        Header {
            timestamp_delta: h.timestamp_delta,
            length: h.length,
            type_id: h.type_id,
            ..prev
        }
    } else {
        Header { timestamp_delta: h.timestamp_delta, ..prev }
    }
}

/// The chunk message header that `write_chunk_message_header` writes for `h`
/// in format 0, 1 or 2 decodes to `h` as that format carries it, wherever the
/// two agree on the extended timestamp and the length fits its three bytes.
/// They disagree on a timestamp of exactly `TIMESTAMP_MAX` in format 0, and
/// in formats 1 and 2 on a delta from `TIMESTAMP_MAX` up while the timestamp
/// does not exceed `TIMESTAMP_MAX`: the writer tests the timestamp, the
/// reader the field it reads.
#[verifier::rlimit(40)]
pub proof fn law_message_header_roundtrip(prev: Header, h: Header, fmt: u8, rest: Seq<u8>)
    requires
        fmt < 3,
        fmt == 0 ==> h.timestamp != TIMESTAMP_MAX,
        fmt != 0 ==> (h.timestamp > TIMESTAMP_MAX || h.timestamp_delta < TIMESTAMP_MAX),
        fmt < 2 ==> h.length <= 0xFFFFFF,
    ensures
        update_header(prev, h.chunk_message_header(fmt) + rest, fmt) == Some(
            (header_as_read(prev, h, fmt), h.chunk_message_header(fmt).len()),
        ),
{
    let extended = TIMESTAMP_MAX < h.timestamp;
    let ts = if extended {
        0xFFFFFFu32
    } else if fmt == 0 {
        h.timestamp
    } else {
        h.timestamp_delta
    };
    let x = if fmt == 0 {
        h.timestamp
    } else {
        h.timestamp_delta
    };
    lemma_be24_roundtrip(ts);
    lemma_be24_roundtrip(h.length);
    lemma_be32_roundtrip(h.stream_id);
    lemma_be32_roundtrip(x);
    let head = be24(ts) + if fmt < 2 {
        be24(h.length) + seq![h.type_id] + if fmt < 1 {
            be32(h.stream_id)
        } else {
            Seq::empty()
        }
    } else {
        Seq::empty()
    };
    let ext = if extended {
        be32(x)
    } else {
        Seq::empty()
    };
    assert(be24(0xFFFFFFu32) =~= seq![0xFFu8, 0xFFu8, 0xFFu8]);
    assert(h.chunk_message_header(fmt) =~= head + ext);
    let k: int = if fmt == 0 {
        11
    } else if fmt == 1 {
        7
    } else {
        3
    };
    lemma_read_message_header(prev, h, fmt, ts, x, head, ext, rest, k);
}

proof fn lemma_read_message_header(
    prev: Header,
    h: Header,
    fmt: u8,
    ts: u32,
    x: u32,
    head: Seq<u8>,
    ext: Seq<u8>,
    rest: Seq<u8>,
    k: int,
)
    requires
        fmt < 3,
        k == (if fmt == 0 { 11int } else if fmt == 1 { 7int } else { 3int }),
        fmt < 2 ==> h.length <= 0xFFFFFF,
        head == be24(ts) + if fmt < 2 {
            be24(h.length) + seq![h.type_id] + if fmt < 1 {
                be32(h.stream_id)
            } else {
                Seq::empty()
            }
        } else {
            Seq::empty()
        },
        TIMESTAMP_MAX < h.timestamp ==> ts == 0xFFFFFF && ext == be32(x),
        !(TIMESTAMP_MAX < h.timestamp) ==> ext == Seq::<u8>::empty() && ts == x && x < TIMESTAMP_MAX,
        x == (if fmt == 0 { h.timestamp } else { h.timestamp_delta }),
        be24_value(be24(ts)) == ts,
        fmt < 2 ==> be24_value(be24(h.length)) == h.length,
        be32_value(be32(h.stream_id)) == h.stream_id,
        be32_value(be32(x)) == x,
    ensures
        update_header(prev, head + ext + rest, fmt) == Some(
            (header_as_read(prev, h, fmt), (head + ext).len()),
        ),
{
    let s = head + ext + rest;
    assert(head.len() == k);
    assert(be24_value(s) == ts) by {
        assert(s[0] == head[0] && s[1] == head[1] && s[2] == head[2]);
    }
    if fmt < 2 {
        assert(be24_value(s.skip(3)) == h.length) by {
            assert(s.skip(3)[0] == head[3] && s.skip(3)[1] == head[4] && s.skip(3)[2] == head[5]);
        }
        assert(s[6] == head[6]);
    }
    if fmt == 0 {
        assert(be32_value(s.skip(7)) == h.stream_id) by {
            assert(s.skip(7)[0] == head[7] && s.skip(7)[1] == head[8] && s.skip(7)[2] == head[9]
                && s.skip(7)[3] == head[10]);
        }
    }
    if TIMESTAMP_MAX < h.timestamp {
        assert(be32_value(s.skip(k)) == x) by {
            assert(s.skip(k)[0] == ext[0] && s.skip(k)[1] == ext[1] && s.skip(k)[2] == ext[2]
                && s.skip(k)[3] == ext[3]);
        }
    }
}

/// The model after a format 0 message header that opens chunk stream `cs_id`
/// with header `h`, with the payload `payload` gathered and `rest` left.
pub open spec fn opened(w: ChunkView, cs_id: u32, h: Header, payload: Seq<u8>, rest: Seq<u8>) -> ChunkView {
    ChunkView {
        state: ChunkState::ChunkMessageHeader { cs_id },
        streams: w.streams.insert(cs_id, PacketView { header: h, payload }),
        rd_buf: rest,
        ..w
    }
}

/// The message header of a control frame opens its chunk stream.
proof fn lemma_control_header(w: ChunkView, cs_id: u32, len: u16, type_id: u8, body: Seq<u8>, rest: Seq<u8>)
    requires
        w.wf(),
        w.state == ChunkState::Uninitialized,
        !w.streams.contains_key(cs_id),
        (2 <= cs_id <= 62) || (64 <= cs_id < 319),
        w.rd_buf == control_frame(0, cs_id, len, type_id, body) + rest,
    ensures
        w.poll_spec() == opened(
            w,
            cs_id,
            Header { timestamp: 0, length: len as u32, type_id, stream_id: 0, timestamp_delta: 0 },
            Seq::empty(),
            body + rest,
        ).data_stage(cs_id),
{
    reveal(ChunkView::header_stage);
    let bh = basic_header_bytes(0, cs_id);
    let mh = be32(0) + be16(len) + seq![type_id] + be32(0);
    let tail = mh + (body + rest);
    let w1 = ChunkView {
        state: ChunkState::BasicHeader { fmt: 0, cs_id },
        rd_buf: tail,
        ..w
    };
    assert(w.poll_spec() == w1.header_stage(0, cs_id)) by {
        assert(w.rd_buf =~= bh + tail);
        law_basic_header_roundtrip(0, cs_id, tail);
        assert(w.rd_buf.skip(bh.len() as int) =~= tail);
    }
    let h = Header { timestamp: 0, length: len as u32, type_id, stream_id: 0, timestamp_delta: 0 };
    assert(new_header(tail) == h) by {
        lemma_be16_roundtrip(len);
        assert(tail[0] == 0 && tail[1] == 0 && tail[2] == 0 && tail[3] == 0);
        assert(tail.skip(3)[0] == 0 && tail.skip(3)[1] == be16(len)[0] && tail.skip(3)[2] == be16(
            len,
        )[1]);
        assert(tail[6] == type_id);
        assert(tail.skip(7)[0] == 0 && tail.skip(7)[1] == 0 && tail.skip(7)[2] == 0 && tail.skip(
            7,
        )[3] == 0);
    }
    assert(tail.skip(11) =~= body + rest);
}

/// A decoder waiting for a new chunk, which has not opened chunk stream
/// `cs_id` and whose chunk size is at least the body length, reads a control frame of
/// format 0 in one chunk and hands its message on.
pub(crate) proof fn lemma_control_frame_poll(w: ChunkView, cs_id: u32, len: u16, type_id: u8, body: Seq<u8>, rest: Seq<u8>)
    requires
        w.wf(),
        w.state == ChunkState::Uninitialized,
        !w.streams.contains_key(cs_id),
        (2 <= cs_id <= 62) || (64 <= cs_id < 319),
        body.len() == len,
        w.in_chunk_size >= len,
        w.rd_buf == control_frame(0, cs_id, len, type_id, body) + rest,
    ensures
        w.poll_spec() == opened(
            w,
            cs_id,
            Header { timestamp: 0, length: len as u32, type_id, stream_id: 0, timestamp_delta: 0 },
            body,
            rest,
        ).deliver(cs_id),
{
    reveal(ChunkView::data_stage);
    let h = Header { timestamp: 0, length: len as u32, type_id, stream_id: 0, timestamp_delta: 0 };
    lemma_control_header(w, cs_id, len, type_id, body, rest);
    let w2 = opened(w, cs_id, h, Seq::empty(), body + rest);
    assert((body + rest).take(len as int) =~= body);
    assert((body + rest).skip(len as int) =~= rest);
    assert(Seq::<u8>::empty() + body =~= body);
    assert(w2.streams[cs_id] == PacketView { header: h, payload: Seq::<u8>::empty() });
    assert(w2.streams.insert(cs_id, PacketView { header: h, payload: body }) =~= w.streams.insert(
        cs_id,
        PacketView { header: h, payload: body },
    ));
    assert(w2.data_stage(cs_id) == opened(w, cs_id, h, body, rest).deliver(cs_id));
}

/// The frame that the encoder writes for a chunk size from 128 up, read by a
/// decoder waiting for a new chunk, which has not opened the chunk stream and
/// whose chunk size is at least 4, decodes to that chunk size: the decoder returns it and takes it as its own, and goes on
/// with the bytes after the frame.
pub proof fn law_set_chunk_size_roundtrip(
    v: ChunkView,
    w: ChunkView,
    cs_id: u32,
    chunk_size: i32,
    rest: Seq<u8>,
)
    requires
        v.wf(),
        w.wf(),
        128 <= chunk_size,
        (2 <= cs_id <= 62) || (64 <= cs_id < 319),
        w.state == ChunkState::Uninitialized,
        !w.streams.contains_key(cs_id),
        w.in_chunk_size >= 4,
        w.rd_buf == v.push_spec(cs_id, MessageView::SetChunkSize { chunk_size }).unwrap().wr_buf.skip(
            v.wr_buf.len() as int,
        ) + rest,
    ensures
        w.poll_spec() is Some,
        w.poll_spec().unwrap().1 == Ok::<Option<MessageView>, ErrorView>(
            Some(MessageView::SetChunkSize { chunk_size }),
        ),
        w.poll_spec().unwrap().0.in_chunk_size == chunk_size,
        w.poll_spec().unwrap().0.state == ChunkState::Uninitialized,
        w.poll_spec().unwrap().0.rd_buf == rest,
{
    reveal(ChunkView::deliver);
    reveal(ChunkView::process_spec);
    let body = be32_signed(chunk_size);
    lemma_be32_signed_roundtrip(chunk_size);
    let frame = control_frame(0, cs_id, 4, msg_type::SET_CHUNK_SIZE, body);
    assert((v.wr_buf + frame).skip(v.wr_buf.len() as int) =~= frame);
    lemma_control_frame_poll(w, cs_id, 4, msg_type::SET_CHUNK_SIZE, body, rest);
}

/// The frame that the encoder writes for a window acknowledgement size, read
/// by a decoder waiting for a new chunk, which has not opened the chunk stream
/// and whose chunk size is at least 4, sets the decoder's window to that size; the
/// decoder returns no message and goes on with the bytes after the frame.
pub proof fn law_window_ack_size_roundtrip(
    v: ChunkView,
    w: ChunkView,
    cs_id: u32,
    ack_window_size: u32,
    rest: Seq<u8>,
)
    requires
        v.wf(),
        w.wf(),
        (2 <= cs_id <= 62) || (64 <= cs_id < 319),
        w.state == ChunkState::Uninitialized,
        !w.streams.contains_key(cs_id),
        w.in_chunk_size >= 4,
        w.rd_buf == v.push_spec(cs_id, MessageView::WindowAckSize { ack_window_size }).unwrap().wr_buf.skip(
            v.wr_buf.len() as int,
        ) + rest,
    ensures
        w.poll_spec() is Some,
        w.poll_spec().unwrap().1 == Ok::<Option<MessageView>, ErrorView>(None),
        w.poll_spec().unwrap().0.window_size == ack_window_size,
        w.poll_spec().unwrap().0.rd_buf == rest,
{
    reveal(ChunkView::deliver);
    reveal(ChunkView::process_spec);
    let body = be32(ack_window_size);
    lemma_be32_roundtrip(ack_window_size);
    let frame = control_frame(0, cs_id, 4, msg_type::WINDOW_ACK_SIZE, body);
    assert((v.wr_buf + frame).skip(v.wr_buf.len() as int) =~= frame);
    lemma_control_frame_poll(w, cs_id, 4, msg_type::WINDOW_ACK_SIZE, body, rest);
}

/// The frame that the encoder writes for a peer bandwidth, read by a decoder
/// waiting for a new chunk, which has not opened the chunk stream and whose
/// chunk size is at least 5, sets the decoder's window to that bandwidth and its
/// limit type to the one sent (an unknown one goes out as dynamic); the
/// decoder returns no message and, if its window changed, writes a window
/// acknowledgement size for it.
pub proof fn law_set_peer_bandwidth_roundtrip(
    v: ChunkView,
    w: ChunkView,
    cs_id: u32,
    ack_window_size: u32,
    limit_type: LimitType,
    rest: Seq<u8>,
)
    requires
        v.wf(),
        w.wf(),
        (2 <= cs_id <= 62) || (64 <= cs_id < 319),
        w.state == ChunkState::Uninitialized,
        !w.streams.contains_key(cs_id),
        w.in_chunk_size >= 5,
        w.rd_buf == v.push_spec(
            cs_id,
            MessageView::SetPeerBandwidth { ack_window_size, limit_type },
        ).unwrap().wr_buf.skip(v.wr_buf.len() as int) + rest,
    ensures
        w.poll_spec() is Some,
        w.poll_spec().unwrap().1 == Ok::<Option<MessageView>, ErrorView>(None),
        w.poll_spec().unwrap().0.window_size == ack_window_size,
        w.poll_spec().unwrap().0.limit_type == limit_type_of(limit_type_code(limit_type)),
        w.poll_spec().unwrap().0.rd_buf == rest,
        w.poll_spec().unwrap().0.wr_buf == if w.window_size != ack_window_size {
            w.push_spec(2, MessageView::WindowAckSize { ack_window_size }).unwrap().wr_buf
        } else {
            w.wr_buf
        },
{
    reveal(ChunkView::deliver);
    reveal(ChunkView::process_spec);
    let body = be32(ack_window_size) + seq![limit_type_code(limit_type)];
    lemma_be32_roundtrip(ack_window_size);
    let frame = control_frame(0, cs_id, 5, msg_type::SET_PEER_BANDWIDTH, body);
    assert((v.wr_buf + frame).skip(v.wr_buf.len() as int) =~= frame);
    lemma_control_frame_poll(w, cs_id, 5, msg_type::SET_PEER_BANDWIDTH, body, rest);
    assert(body[4] == limit_type_code(limit_type));
}

/// The three length bytes of a command frame hold the length.
proof fn lemma_command_length(len: nat)
    requires
        len <= 0xFFFFFF,
    ensures
        be24_value(be16((len / 0x100) as u16) + seq![(len % 0x100) as u8]) == len,
{
    let hi = (len / 0x100) as u16;
    lemma_be16_roundtrip(hi);
    let s = be16(hi) + seq![(len % 0x100) as u8];
    assert(s[0] == be16(hi)[0] && s[1] == be16(hi)[1] && s[2] == (len % 0x100) as u8);
    assert(be24_value(s) == be16_value(be16(hi)) * 0x100 + len % 0x100);
}

/// With its header in and the rest of its payload at hand, a message that
/// fits one chunk is handed on.
proof fn lemma_opened_delivers(w: ChunkView, cs_id: u32, h: Header, body: Seq<u8>, rest: Seq<u8>)
    requires
        w.wf(),
        h.timestamp == 0,
        h.timestamp_delta == 0,
        body.len() == h.length,
        w.in_chunk_size >= h.length,
    ensures
        opened(w, cs_id, h, Seq::empty(), body + rest).data_stage(cs_id) == opened(
            w,
            cs_id,
            h,
            body,
            rest,
        ).deliver(cs_id),
{
    reveal(ChunkView::data_stage);
    let w2 = opened(w, cs_id, h, Seq::empty(), body + rest);
    assert((body + rest).take(h.length as int) =~= body);
    assert((body + rest).skip(h.length as int) =~= rest);
    assert(Seq::<u8>::empty() + body =~= body);
    assert(w2.streams[cs_id] == PacketView { header: h, payload: Seq::<u8>::empty() });
    assert(w2.streams.insert(cs_id, PacketView { header: h, payload: body }) =~= w.streams.insert(
        cs_id,
        PacketView { header: h, payload: body },
    ));
}

/// The message header of a command frame opens its chunk stream.
#[verifier::rlimit(40)]
pub(crate) proof fn lemma_command_header(w: ChunkView, cs_id: u32, len: nat, after: Seq<u8>)
    requires
        w.wf(),
        w.state == ChunkState::Uninitialized,
        !w.streams.contains_key(cs_id),
        (2 <= cs_id <= 62) || (64 <= cs_id < 319),
        len <= 0xFFFFFF,
        w.rd_buf == command_head(cs_id, len) + after,
    ensures
        w.poll_spec() == opened(w, cs_id, command_header(len), Seq::empty(), after).data_stage(
            cs_id,
        ),
{
    reveal(ChunkView::header_stage);
    let bh = basic_header_bytes(0, cs_id);
    let lenb = be16((len / 0x100) as u16) + seq![(len % 0x100) as u8];
    let mh = be16(0) + seq![0u8] + lenb + seq![msg_type::COMMAND_AMF0] + be32(0);
    let tail = mh + after;
    let w1 = ChunkView {
        state: ChunkState::BasicHeader { fmt: 0, cs_id },
        rd_buf: tail,
        ..w
    };
    assert(w.poll_spec() == w1.header_stage(0, cs_id)) by {
        assert(w.rd_buf =~= bh + tail);
        law_basic_header_roundtrip(0, cs_id, tail);
        assert(w.rd_buf.skip(bh.len() as int) =~= tail);
    }
    assert(be24_value(tail) == 0) by {
        assert(tail[0] == 0 && tail[1] == 0 && tail[2] == 0);
    }
    assert(be24_value(tail.skip(3)) == len) by {
        lemma_command_length(len);
        assert(tail.skip(3)[0] == lenb[0] && tail.skip(3)[1] == lenb[1] && tail.skip(3)[2]
            == lenb[2]);
    }
    assert(tail[6] == msg_type::COMMAND_AMF0);
    assert(be32_value(tail.skip(7)) == 0) by {
        assert(tail.skip(7)[0] == 0 && tail.skip(7)[1] == 0 && tail.skip(7)[2] == 0 && tail.skip(
            7,
        )[3] == 0);
    }
    assert(new_header(tail) == command_header(len));
    assert(tail.skip(11) =~= after);
}

/// The header that the decoder holds for a command frame of `len` bytes.
pub open spec fn command_header(len: nat) -> Header {
    Header {
        timestamp: 0,
        length: len as u32,
        type_id: msg_type::COMMAND_AMF0,
        stream_id: 0,
        timestamp_delta: 0,
    }
}

/// The frame that the encoder writes at chunk size `size` for an AMF0
/// command whose encoding `cmd` fits one chunk, read by a decoder waiting for
/// a new chunk, which has not opened the chunk stream and whose chunk size is
/// at least the length of `cmd`, decodes to a command that carries the values
/// that decode from `cmd`, and the decoder goes on with the bytes after the
/// frame. A length that overflows the three bytes of its length field does not
/// read back.
pub proof fn law_command_roundtrip(w: ChunkView, cs_id: u32, cmd: Seq<u8>, size: nat, rest: Seq<u8>)
    requires
        w.wf(),
        w.state == ChunkState::Uninitialized,
        !w.streams.contains_key(cs_id),
        (2 <= cs_id <= 62) || (64 <= cs_id < 319),
        cmd.len() <= size,
        cmd.len() <= w.in_chunk_size,
        cmd.len() <= 0xFFFFFF,
        w.rd_buf == command_frame(cs_id, cmd, size) + rest,
    ensures
        w.poll_spec() is Some,
        w.poll_spec().unwrap().1 == Ok::<Option<MessageView>, ErrorView>(
            Some(MessageView::Command { values: amf0_values(cmd) }),
        ),
        w.poll_spec().unwrap().0.state == ChunkState::Uninitialized,
        w.poll_spec().unwrap().0.rd_buf == rest,
{
    let h = command_header(cmd.len());
    lemma_split_body_short(cs_id, cmd, size);
    assert(w.rd_buf =~= command_head(cs_id, cmd.len()) + (cmd + rest));
    lemma_command_header(w, cs_id, cmd.len(), cmd + rest);
    lemma_opened_delivers(w, cs_id, h, cmd, rest);
    let w3 = opened(w, cs_id, h, cmd, rest);
    assert(w3.streams[cs_id] == PacketView { header: h, payload: cmd });
    assert(w3.process_spec(h, cmd) == Some((w3, Ok::<Option<MessageView>, ErrorView>(Some(MessageView::Command { values: amf0_values(cmd) }))))) by {
        reveal(ChunkView::process_spec);
    }
    reveal(ChunkView::deliver);
}

/// Whether the `amf` decoder reads `v` back from the encoding that its
/// encoder writes for `v`, taking exactly those bytes, whatever follows them.
pub open spec fn amf_reads_back(v: amf::Value) -> bool {
    &&& amf_encoding(v) is Some
    &&& amf_encoding(v).unwrap().len() > 0
    &&& forall|r: Seq<u8>|
        #[trigger] amf0_read(amf_encoding(v).unwrap() + r) == Some(
            (v, amf_encoding(v).unwrap().len()),
        )
}

/// The encodings of a sequence of values are the encoding of the first one
/// followed by those of the others.
proof fn lemma_amf_encodings_front(vs: Seq<amf::Value>)
    requires
        vs.len() > 0,
    ensures
        amf_encodings(vs) == amf_encoding(vs[0]).unwrap() + amf_encodings(vs.skip(1)),
    decreases vs.len(),
{
    if vs.len() == 1 {
        assert(vs.drop_last().len() == 0);
        assert(vs.skip(1).len() == 0);
        assert(amf_encodings(vs.drop_last()) + amf_encoding(vs.last()).unwrap() =~= amf_encoding(
            vs[0],
        ).unwrap() + Seq::<u8>::empty());
    } else {
        let d = vs.drop_last();
        lemma_amf_encodings_front(d);
        assert(d[0] == vs[0]);
        assert(vs.skip(1).drop_last() =~= d.skip(1));
        assert(vs.skip(1).last() == vs.last());
        assert(amf_encodings(vs.skip(1)) == amf_encodings(vs.skip(1).drop_last()) + amf_encoding(
            vs.skip(1).last(),
        ).unwrap());
        assert(amf_encodings(vs) =~= amf_encoding(vs[0]).unwrap() + amf_encodings(vs.skip(1)));
    }
}

/// Decoding the encodings of values `vs` one after another, until the
/// decoder fails, gives `vs` back, in order and all of them, wherever the
/// `amf` decoder reads each value back from its own encoding.
pub proof fn law_amf0_values_roundtrip(vs: Seq<amf::Value>)
    requires
        forall|i: int| 0 <= i < vs.len() ==> amf_reads_back(#[trigger] vs[i]),
    ensures
        amf0_values(amf_encodings(vs)) == vs,
    decreases vs.len(),
{
    if vs.len() == 0 {
        assert(amf_encodings(vs) == Seq::<u8>::empty());
        assert(amf0_values(Seq::<u8>::empty()) =~= vs);
    } else {
        lemma_amf_encodings_front(vs);
        let e = amf_encoding(vs[0]).unwrap();
        let tail = amf_encodings(vs.skip(1));
        let bytes = e + tail;
        assert(amf_reads_back(vs[0]));
        assert(amf0_read(e + tail) == Some((vs[0], e.len())));
        assert(bytes.subrange(e.len() as int, bytes.len() as int) =~= tail);
        assert forall|i: int| 0 <= i < vs.skip(1).len() implies amf_reads_back(
            #[trigger] vs.skip(1)[i],
        ) by {
            assert(vs.skip(1)[i] == vs[i + 1]);
        }
        law_amf0_values_roundtrip(vs.skip(1));
        assert(seq![vs[0]] + vs.skip(1) =~= vs);
    }
}

} // verus!
