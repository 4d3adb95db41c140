//! What the decoder makes of the messages it reads.

use vstd::prelude::*;
use vstd::seq_lib::lemma_concat_associative;

use crate::chunk::{basic_header_agrees, basic_header_bytes, control_frame, message_header_len, update_header, ChunkState, ChunkView, ErrorView, PacketView};
use crate::laws::codec::{header_as_read, law_basic_header_roundtrip, law_message_header_roundtrip, lemma_control_frame_poll};
use crate::message::msg_type;
use crate::message::{EventView, Header, MessageView, TIMESTAMP_MAX};
use crate::wire::{be16, be24, be24_value, be32, be32_value, lemma_be16_roundtrip, lemma_be24_roundtrip, lemma_be32_roundtrip};

verus! {

/// Whether `id` is the id of a user control event that the decoder knows.
pub open spec fn known_event_id(id: u16) -> bool {
    id <= 4 || id == 6 || id == 7
}

/// The payload of a user control message that carries event `e`: the event
/// id in two bytes, then the event data, four bytes per field.
pub open spec fn event_payload(e: EventView) -> Seq<u8> {
    match e {
        EventView::StreamBegin { stream_id } => be16(0) + be32(stream_id),
        EventView::StreamEoF { stream_id } => be16(1) + be32(stream_id),
        EventView::StreamDry { stream_id } => be16(2) + be32(stream_id),
        EventView::SetBufferLength { stream_id, length } => be16(3) + be32(stream_id) + be32(length),
        EventView::StreamIsRecorded { stream_id } => be16(4) + be32(stream_id),
        EventView::PingRequest { timestamp } => be16(6) + be32(timestamp),
        EventView::PingResponse { timestamp } => be16(7) + be32(timestamp),
        EventView::Unknown { id, payload } => be16(id) + payload,
    }
}

/// A user control message of format 0 carrying event `e` (other than a ping
/// request, which the decoder does not answer), read by a decoder waiting for
/// a new chunk that has not opened the chunk stream and whose chunk size
/// holds the message, decodes to that event: each known event with its data,
/// whatever bytes follow the data, and an event of an unknown id as that id
/// with the rest of the payload. The decoder goes on with the bytes after the
/// message.
#[verifier::rlimit(40)]
pub proof fn law_user_control_roundtrip(
    w: ChunkView,
    cs_id: u32,
    e: EventView,
    extra: Seq<u8>,
    rest: Seq<u8>,
)
    requires
        w.wf(),
        w.state == ChunkState::Uninitialized,
        !w.streams.contains_key(cs_id),
        (2 <= cs_id <= 62) || (64 <= cs_id < 319),
        !(e is PingRequest),
        e matches EventView::Unknown { id, .. } ==> !known_event_id(id) && extra.len() == 0,
        event_payload(e).len() + extra.len() <= w.in_chunk_size,
        event_payload(e).len() + extra.len() <= 0xFFFF,
        w.rd_buf == control_frame(
            0,
            cs_id,
            (event_payload(e) + extra).len() as u16,
            msg_type::USER_CONTROL,
            event_payload(e) + extra,
        ) + rest,
    ensures
        w.poll_spec() is Some,
        w.poll_spec().unwrap().1 == Ok::<Option<MessageView>, ErrorView>(
            Some(MessageView::UserControl(e)),
        ),
        w.poll_spec().unwrap().0.rd_buf == rest,
        w.poll_spec().unwrap().0.state == ChunkState::Uninitialized,
{
    reveal(ChunkView::deliver);
    reveal(ChunkView::process_spec);
    let body = event_payload(e) + extra;
    let len = body.len() as u16;
    lemma_control_frame_poll(w, cs_id, len, msg_type::USER_CONTROL, body, rest);
    let h = Header {
        timestamp: 0,
        length: len as u32,
        type_id: msg_type::USER_CONTROL,
        stream_id: 0,
        timestamp_delta: 0,
    };
    let q = body.skip(2);
    match e {
        EventView::StreamBegin { stream_id } => {
            lemma_be16_roundtrip(0);
            lemma_be32_roundtrip(stream_id);
            assert(q =~= be32(stream_id) + extra);
            assert(q[0] == be32(stream_id)[0] && q[1] == be32(stream_id)[1] && q[2] == be32(
                stream_id,
            )[2] && q[3] == be32(stream_id)[3]);
        },
        EventView::StreamEoF { stream_id } => {
            lemma_be16_roundtrip(1);
            lemma_be32_roundtrip(stream_id);
            assert(q =~= be32(stream_id) + extra);
            assert(q[0] == be32(stream_id)[0] && q[1] == be32(stream_id)[1] && q[2] == be32(
                stream_id,
            )[2] && q[3] == be32(stream_id)[3]);
        },
        EventView::StreamDry { stream_id } => {
            lemma_be16_roundtrip(2);
            lemma_be32_roundtrip(stream_id);
            assert(q =~= be32(stream_id) + extra);
            assert(q[0] == be32(stream_id)[0] && q[1] == be32(stream_id)[1] && q[2] == be32(
                stream_id,
            )[2] && q[3] == be32(stream_id)[3]);
        },
        EventView::SetBufferLength { stream_id, length } => {
            lemma_be16_roundtrip(3);
            lemma_be32_roundtrip(stream_id);
            lemma_be32_roundtrip(length);
            assert(q =~= be32(stream_id) + be32(length) + extra);
            assert(q[0] == be32(stream_id)[0] && q[1] == be32(stream_id)[1] && q[2] == be32(
                stream_id,
            )[2] && q[3] == be32(stream_id)[3]);
            let q4 = q.skip(4);
            assert(q4 =~= be32(length) + extra);
            assert(q4[0] == be32(length)[0] && q4[1] == be32(length)[1] && q4[2] == be32(length)[2]
                && q4[3] == be32(length)[3]);
        },
        EventView::StreamIsRecorded { stream_id } => {
            lemma_be16_roundtrip(4);
            lemma_be32_roundtrip(stream_id);
            assert(q =~= be32(stream_id) + extra);
            assert(q[0] == be32(stream_id)[0] && q[1] == be32(stream_id)[1] && q[2] == be32(
                stream_id,
            )[2] && q[3] == be32(stream_id)[3]);
        },
        EventView::PingRequest { .. } => {},
        EventView::PingResponse { timestamp } => {
            lemma_be16_roundtrip(7);
            lemma_be32_roundtrip(timestamp);
            assert(q =~= be32(timestamp) + extra);
            assert(q[0] == be32(timestamp)[0] && q[1] == be32(timestamp)[1] && q[2] == be32(
                timestamp,
            )[2] && q[3] == be32(timestamp)[3]);
        },
        EventView::Unknown { id, payload } => {
            lemma_be16_roundtrip(id);
            assert(q =~= payload);
        },
    }
    assert(body[0] == event_payload(e)[0] && body[1] == event_payload(e)[1]);
}

/// The frame of a sub-message with header `h` and payload `p` in the body of
/// an aggregate message: the type, the length in three bytes, the timestamp in
/// four, the stream id in three, the payload, then the size of the frame so
/// far in four bytes.
pub open spec fn sub_frame(h: Header, p: Seq<u8>) -> Seq<u8> {
    seq![h.type_id] + be24(p.len() as u32) + be32(h.timestamp) + be24(h.stream_id) + p + be32(
        (p.len() + 11) as u32,
    )
}

/// The frames of the sub-messages `subs`, one after another.
pub open spec fn sub_frames(subs: Seq<(Header, Seq<u8>)>) -> Seq<u8>
    decreases subs.len(),
{
    if subs.len() == 0 {
        Seq::empty()
    } else {
        sub_frame(subs[0].0, subs[0].1) + sub_frames(subs.skip(1))
    }
}

/// The sub-message `s` has the header that its frame carries: its length is
/// that of its payload, and its fields fit their bytes.
pub open spec fn sub_message_fits(s: (Header, Seq<u8>)) -> bool {
    &&& s.1.len() <= 0xFFFFFF
    &&& s.0.length == s.1.len()
    &&& s.0.stream_id <= 0xFFFFFF
    &&& s.0.timestamp_delta == 0
}

/// Three bytes read as a number are read the same with more bytes behind them.
proof fn lemma_be24_prefix(a: Seq<u8>, b: Seq<u8>)
    requires
        a.len() == 3,
    ensures
        be24_value(a + b) == be24_value(a),
{
    assert((a + b)[0] == a[0] && (a + b)[1] == a[1] && (a + b)[2] == a[2]);
}

/// Four bytes read as a number are read the same with more bytes behind them.
proof fn lemma_be32_prefix(a: Seq<u8>, b: Seq<u8>)
    requires
        a.len() == 4,
    ensures
        be32_value(a + b) == be32_value(a),
{
    assert((a + b)[0] == a[0] && (a + b)[1] == a[1] && (a + b)[2] == a[2] && (a + b)[3] == a[3]);
}

/// The fields of a sub-message frame laid out one after another.
proof fn lemma_sub_frame_fields(
    rest: Seq<u8>,
    t: u8,
    b24: Seq<u8>,
    t32: Seq<u8>,
    s24: Seq<u8>,
    x3: Seq<u8>,
)
    requires
        b24.len() == 3,
        t32.len() == 4,
        s24.len() == 3,
        rest == seq![t] + (b24 + (t32 + (s24 + x3))),
    ensures
        rest.len() >= 11,
        rest[0] == t,
        be24_value(rest.skip(1)) == be24_value(b24),
        be32_value(rest.skip(4)) == be32_value(t32),
        be24_value(rest.skip(8)) == be24_value(s24),
        rest.skip(11) == x3,
{
    let x2 = s24 + x3;
    let x1 = t32 + x2;
    let x0 = b24 + x1;
    assert(rest.skip(1) =~= x0);
    assert(rest.skip(4) =~= x1);
    assert(rest.skip(8) =~= x2);
    assert(rest.skip(11) =~= x3);
    lemma_be24_prefix(b24, x1);
    lemma_be32_prefix(t32, x2);
    lemma_be24_prefix(s24, x3);
}

/// The header that the decoder reads from a sub-message frame is the one it
/// was written for.
proof fn lemma_sub_header(h: Header, p: Seq<u8>, tail: Seq<u8>)
    requires
        sub_message_fits((h, p)),
    ensures
        ChunkView::sub_header(sub_frame(h, p) + tail) == h,
        (sub_frame(h, p) + tail).skip(11) == p + be32((p.len() + 11) as u32) + tail,
{
    let b24 = be24(p.len() as u32);
    let t32 = be32(h.timestamp);
    let s24 = be24(h.stream_id);
    let x3 = p + be32((p.len() + 11) as u32) + tail;
    let rest = sub_frame(h, p) + tail;
    let bp = be32((p.len() + 11) as u32);
    let a1 = seq![h.type_id] + b24;
    let a2 = a1 + t32;
    let a3 = a2 + s24;
    let a4 = a3 + p;
    lemma_concat_associative(a4, bp, tail);
    lemma_concat_associative(a3, p, bp + tail);
    lemma_concat_associative(p, bp, tail);
    lemma_concat_associative(a2, s24, x3);
    lemma_concat_associative(a1, t32, s24 + x3);
    lemma_concat_associative(seq![h.type_id], b24, t32 + (s24 + x3));
    lemma_sub_frame_fields(rest, h.type_id, b24, t32, s24, x3);
    assert(be24_value(b24) == h.length) by {
        lemma_be24_roundtrip(p.len() as u32);
    }
    assert(be32_value(t32) == h.timestamp) by {
        lemma_be32_roundtrip(h.timestamp);
    }
    assert(be24_value(s24) == h.stream_id) by {
        lemma_be24_roundtrip(h.stream_id);
    }
}

/// A sub-message frame that yields message `m` adds `m` to those decoded so
/// far, and decoding goes on after the frame.
proof fn lemma_one_frame(
    v: ChunkView,
    h: Header,
    p: Seq<u8>,
    m: MessageView,
    tail: Seq<u8>,
    acc: Seq<MessageView>,
)
    requires
        sub_message_fits((h, p)),
        v.process_spec(h, p) == Some((v, Ok::<Option<MessageView>, ErrorView>(Some(m)))),
    ensures
        v.aggregate_spec(sub_frame(h, p) + tail, acc) == v.aggregate_spec(tail, acc.push(m)),
{
    let rest = sub_frame(h, p) + tail;
    lemma_sub_header(h, p, tail);
    lemma_aggregate_step(v, rest, h, p, be32((p.len() + 11) as u32), tail, m, acc);
}

/// One step of decoding an aggregate body whose next sub-message has header
/// `h` and payload `p` and yields `m`.
#[verifier::rlimit(40)]
proof fn lemma_aggregate_step(
    v: ChunkView,
    rest: Seq<u8>,
    h: Header,
    p: Seq<u8>,
    bp: Seq<u8>,
    tail: Seq<u8>,
    m: MessageView,
    acc: Seq<MessageView>,
)
    requires
        rest.len() >= 11,
        ChunkView::sub_header(rest) == h,
        rest.skip(11) == p + bp + tail,
        bp.len() == 4,
        h.length == p.len(),
        v.process_spec(h, p) == Some((v, Ok::<Option<MessageView>, ErrorView>(Some(m)))),
    ensures
        v.aggregate_spec(rest, acc) == v.aggregate_spec(tail, acc.push(m)),
{
    reveal(ChunkView::process_spec);
    let r1 = rest.skip(11);
    assert(r1.take(h.length as int) =~= p);
    let r2 = r1.skip(h.length as int);
    assert(r2 =~= bp + tail);
    assert(r2.skip(4) =~= tail);
}

proof fn lemma_aggregate_frames(
    v: ChunkView,
    subs: Seq<(Header, Seq<u8>)>,
    ms: Seq<MessageView>,
    acc: Seq<MessageView>,
)
    requires
        ms.len() == subs.len(),
        forall|i: int| 0 <= i < subs.len() ==> sub_message_fits(#[trigger] subs[i]),
        forall|i: int|
            0 <= i < subs.len() ==> v.process_spec(subs[i].0, subs[i].1) == Some(
                (v, Ok::<Option<MessageView>, ErrorView>(Some(#[trigger] ms[i]))),
            ),
    ensures
        v.aggregate_spec(sub_frames(subs), acc) == Some(
            (v, Ok::<Seq<MessageView>, ErrorView>(acc + ms)),
        ),
    decreases subs.len(),
{
    if subs.len() == 0 {
        assert(acc + ms =~= acc);
    } else {
        let tail = sub_frames(subs.skip(1));
        assert(sub_message_fits(subs[0]));
        assert(v.process_spec(subs[0].0, subs[0].1) == Some(
            (v, Ok::<Option<MessageView>, ErrorView>(Some(ms[0]))),
        ));
        lemma_one_frame(v, subs[0].0, subs[0].1, ms[0], tail, acc);
        assert forall|i: int| 0 <= i < subs.skip(1).len() implies sub_message_fits(
            #[trigger] subs.skip(1)[i],
        ) by {
            assert(subs.skip(1)[i] == subs[i + 1]);
        }
        assert forall|i: int|
            0 <= i < subs.skip(1).len() implies v.process_spec(
            subs.skip(1)[i].0,
            subs.skip(1)[i].1,
        ) == Some((v, Ok::<Option<MessageView>, ErrorView>(Some(#[trigger] ms.skip(1)[i])))) by {
            assert(subs.skip(1)[i] == subs[i + 1]);
            assert(ms.skip(1)[i] == ms[i + 1]);
        }
        lemma_aggregate_frames(v, subs.skip(1), ms.skip(1), acc.push(ms[0]));
        assert(acc.push(ms[0]) + ms.skip(1) =~= acc + ms);
    }
}

/// An aggregate message whose body holds the frames of sub-messages, each of
/// which, processed on its own, yields a message and changes nothing,
/// decodes to the aggregate of those messages in the order of their frames.
pub proof fn law_aggregate_in_order(
    v: ChunkView,
    h: Header,
    subs: Seq<(Header, Seq<u8>)>,
    ms: Seq<MessageView>,
)
    requires
        h.type_id == msg_type::AGGREGATE,
        ms.len() == subs.len(),
        forall|i: int| 0 <= i < subs.len() ==> sub_message_fits(#[trigger] subs[i]),
        forall|i: int|
            0 <= i < subs.len() ==> v.process_spec(subs[i].0, subs[i].1) == Some(
                (v, Ok::<Option<MessageView>, ErrorView>(Some(#[trigger] ms[i]))),
            ),
    ensures
        v.process_spec(h, sub_frames(subs)) == Some(
            (v, Ok::<Option<MessageView>, ErrorView>(Some(MessageView::Aggregate(ms)))),
        ),
{
    lemma_aggregate_frames(v, subs, ms, Seq::empty());
    assert(Seq::<MessageView>::empty() + ms =~= ms);
    reveal(ChunkView::process_spec);
}

/// The header that a chunk stream holds once a chunk with message header of
/// format `fmt` written for `h` is read over its last header `prev`, and its
/// timestamp has moved on by the delta.
pub open spec fn header_after_chunk(prev: Header, h: Header, fmt: u8) -> Header {
    let hr = header_as_read(prev, h, fmt);
    Header { timestamp: (hr.timestamp + hr.timestamp_delta) as u32, ..hr }
}

/// The model once such a chunk carrying the whole payload `body` is read.
pub open spec fn chunk_read(w: ChunkView, cs_id: u32, hd: Header, body: Seq<u8>, rest: Seq<u8>) -> ChunkView {
    ChunkView {
        state: ChunkState::ChunkMessageHeader { cs_id },
        streams: w.streams.insert(cs_id, PacketView { header: hd, payload: body }),
        rd_buf: rest,
        ..w
    }
}

/// A chunk of format 0, 1 or 2 on a chunk stream that is open and holds no
/// partial payload, carrying a whole message `body`, is read over the
/// stream's last header as its format carries it (format 2 keeps the length
/// and type and sets the delta, format 1 also sets the length and type,
/// format 0 all but the delta), the timestamp moves on by the delta, and the
/// message is handed on. An audio or video message comes back with its delta,
/// control byte and data, and the decoder goes on with the bytes after the
/// chunk.
#[verifier::rlimit(40)]
pub proof fn law_open_stream_chunk(
    w: ChunkView,
    fmt: u8,
    cs_id: u32,
    h: Header,
    body: Seq<u8>,
    rest: Seq<u8>,
)
    requires
        w.wf(),
        w.state == ChunkState::Uninitialized,
        fmt < 3,
        basic_header_agrees(fmt, cs_id),
        w.streams.contains_key(cs_id),
        w.streams[cs_id].payload.len() == 0,
        fmt == 0 ==> h.timestamp != TIMESTAMP_MAX,
        fmt != 0 ==> (h.timestamp > TIMESTAMP_MAX || h.timestamp_delta < TIMESTAMP_MAX),
        fmt < 2 ==> h.length <= 0xFFFFFF,
        ({
            let hr = header_as_read(w.streams[cs_id].header, h, fmt);
            &&& body.len() == hr.length
            &&& hr.length <= w.in_chunk_size
            &&& hr.timestamp + hr.timestamp_delta <= u32::MAX
        }),
        w.rd_buf == basic_header_bytes(fmt, cs_id) + h.chunk_message_header(fmt) + body + rest,
    ensures
        ({
            let hd = header_after_chunk(w.streams[cs_id].header, h, fmt);
            &&& w.poll_spec() == chunk_read(w, cs_id, hd, body, rest).deliver(cs_id)
            &&& (hd.type_id == msg_type::AUDIO && body.len() >= 1) ==> w.poll_spec() == Some(
                (
                    ChunkView {
                        state: ChunkState::Uninitialized,
                        streams: w.streams.insert(
                            cs_id,
                            PacketView { header: hd, payload: Seq::empty() },
                        ),
                        rd_buf: rest,
                        ..w
                    },
                    Ok::<Option<MessageView>, ErrorView>(
                        Some(
                            MessageView::Audio {
                                delta: hd.timestamp_delta,
                                control: body[0],
                                payload: body.skip(1),
                            },
                        ),
                    ),
                ),
            )
            &&& (hd.type_id == msg_type::VIDEO && body.len() >= 1) ==> w.poll_spec() == Some(
                (
                    ChunkView {
                        state: ChunkState::Uninitialized,
                        streams: w.streams.insert(
                            cs_id,
                            PacketView { header: hd, payload: Seq::empty() },
                        ),
                        rd_buf: rest,
                        ..w
                    },
                    Ok::<Option<MessageView>, ErrorView>(
                        Some(
                            MessageView::Video {
                                delta: hd.timestamp_delta,
                                control: body[0],
                                payload: body.skip(1),
                            },
                        ),
                    ),
                ),
            )
        }),
{
    let prev = w.streams[cs_id];
    let hd = header_after_chunk(prev.header, h, fmt);
    lemma_open_stream_header(w, fmt, cs_id, h, body, rest);
    lemma_open_stream_data(w, fmt, cs_id, h, body, rest);
    let w3 = chunk_read(w, cs_id, hd, body, rest);
    assert(w3.streams[cs_id] == PacketView { header: hd, payload: body });
    assert(w3.clear_payload(cs_id).streams =~= w.streams.insert(
        cs_id,
        PacketView { header: hd, payload: Seq::empty() },
    ));
    reveal(ChunkView::deliver);
    reveal(ChunkView::process_spec);
}

/// The model once the message header of such a chunk is read.
spec fn header_read(w: ChunkView, fmt: u8, cs_id: u32, h: Header, body: Seq<u8>, rest: Seq<u8>) -> ChunkView {
    let prev = w.streams[cs_id];
    ChunkView {
        state: ChunkState::ChunkMessageHeader { cs_id },
        streams: w.streams.insert(
            cs_id,
            PacketView { header: header_as_read(prev.header, h, fmt), ..prev },
        ),
        rd_buf: body + rest,
        ..w
    }
}

/// The basic header and the message header of such a chunk are read over
/// the stream's last header.
#[verifier::rlimit(80)]
proof fn lemma_open_stream_header(
    w: ChunkView,
    fmt: u8,
    cs_id: u32,
    h: Header,
    body: Seq<u8>,
    rest: Seq<u8>,
)
    requires
        fmt < 3,
        basic_header_agrees(fmt, cs_id),
        w.state == ChunkState::Uninitialized,
        w.streams.contains_key(cs_id),
        fmt == 0 ==> h.timestamp != TIMESTAMP_MAX,
        fmt != 0 ==> (h.timestamp > TIMESTAMP_MAX || h.timestamp_delta < TIMESTAMP_MAX),
        fmt < 2 ==> h.length <= 0xFFFFFF,
        w.rd_buf == basic_header_bytes(fmt, cs_id) + h.chunk_message_header(fmt) + body + rest,
    ensures
        w.poll_spec() == header_read(w, fmt, cs_id, h, body, rest).data_stage(cs_id),
{
    let prev = w.streams[cs_id];
    let hr = header_as_read(prev.header, h, fmt);
    let bh = basic_header_bytes(fmt, cs_id);
    let cmh = h.chunk_message_header(fmt);
    let tail = cmh + (body + rest);
    assert(w.rd_buf =~= bh + tail);
    law_basic_header_roundtrip(fmt, cs_id, tail);
    assert(w.rd_buf.skip(bh.len() as int) =~= tail);
    let w1 = ChunkView { state: ChunkState::BasicHeader { fmt, cs_id }, rd_buf: tail, ..w };
    assert(w.poll_spec() == w1.header_stage(fmt, cs_id));
    law_message_header_roundtrip(prev.header, h, fmt, body + rest);
    assert(update_header(prev.header, tail, fmt) == Some((hr, cmh.len())));
    assert(cmh.len() >= message_header_len(fmt));
    assert(tail.skip(cmh.len() as int) =~= body + rest);
    reveal(ChunkView::header_stage);
}

/// The chunk data then completes the message.
#[verifier::rlimit(40)]
proof fn lemma_open_stream_data(
    w: ChunkView,
    fmt: u8,
    cs_id: u32,
    h: Header,
    body: Seq<u8>,
    rest: Seq<u8>,
)
    requires
        w.streams.contains_key(cs_id),
        w.streams[cs_id].payload.len() == 0,
        ({
            let hr = header_as_read(w.streams[cs_id].header, h, fmt);
            &&& body.len() == hr.length
            &&& hr.length <= w.in_chunk_size
            &&& hr.timestamp + hr.timestamp_delta <= u32::MAX
        }),
    ensures
        header_read(w, fmt, cs_id, h, body, rest).data_stage(cs_id) == chunk_read(
            w,
            cs_id,
            header_after_chunk(w.streams[cs_id].header, h, fmt),
            body,
            rest,
        ).deliver(cs_id),
{
    reveal(ChunkView::data_stage);
    let prev = w.streams[cs_id];
    let hr = header_as_read(prev.header, h, fmt);
    let hd = header_after_chunk(prev.header, h, fmt);
    let w2 = header_read(w, fmt, cs_id, h, body, rest);
    assert(w2.streams[cs_id] == PacketView { header: hr, ..prev });
    assert((body + rest).take(hr.length as int) =~= body);
    assert((body + rest).skip(hr.length as int) =~= rest);
    assert(prev.payload + body =~= body);
    assert(w2.streams.insert(cs_id, PacketView { header: hd, payload: body }) =~= w.streams.insert(
        cs_id,
        PacketView { header: hd, payload: body },
    ));
}

} // verus!
