//! The decoder reads its input in order.

use vstd::prelude::*;

use crate::chunk::{control_frame, message_header_len, new_header, parse_basic_header, update_header, ChunkState, ChunkView, PacketView};
use crate::message::msg_type;
use crate::message::{Header, MessageView};
use crate::wire::be32;

verus! {

/// `a` is `b` with bytes appended.
pub open spec fn extends(a: Seq<u8>, b: Seq<u8>) -> bool {
    b.len() <= a.len() && a.subrange(0, b.len() as int) == b
}

/// `a` is `b` with bytes taken from the front.
pub open spec fn drains(a: Seq<u8>, b: Seq<u8>) -> bool {
    a.len() <= b.len() && b.skip(b.len() - a.len()) == a
}

proof fn lemma_extends_trans(a: Seq<u8>, b: Seq<u8>, c: Seq<u8>)
    requires
        extends(a, b),
        extends(b, c),
    ensures
        extends(a, c),
{
    assert(a.subrange(0, c.len() as int) =~= b.subrange(0, c.len() as int));
}

proof fn lemma_drains_skip(b: Seq<u8>, k: int, a: Seq<u8>)
    requires
        0 <= k <= b.len(),
        drains(a, b.skip(k)),
    ensures
        drains(a, b),
{
    assert(b.skip(b.len() - a.len()) =~= b.skip(k).skip(b.skip(k).len() - a.len()));
}

/// Acting on a decoded message leaves the received bytes alone and only
/// appends to the bytes to send.
proof fn lemma_react_io(v: ChunkView, m: MessageView)
    ensures
        v.react(m) matches Some((v2, _)) ==> v2.rd_buf == v.rd_buf && v2.bytes_in == v.bytes_in && extends(v2.wr_buf, v.wr_buf),
{
    assert(v.wr_buf.subrange(0, v.wr_buf.len() as int) =~= v.wr_buf);
    if let MessageView::SetPeerBandwidth { ack_window_size, limit_type } = m {
        let f = control_frame(0, 2, 4, msg_type::WINDOW_ACK_SIZE, be32(ack_window_size));
        assert((v.wr_buf + f).subrange(0, v.wr_buf.len() as int) =~= v.wr_buf);
    }
}

/// Processing a complete message leaves the received bytes alone and only
/// appends to the bytes to send.
proof fn lemma_process_io(v: ChunkView, h: Header, p: Seq<u8>)
    ensures
        v.process_spec(h, p) matches Some((v2, _)) ==> v2.rd_buf == v.rd_buf && v2.bytes_in == v.bytes_in && extends(
            v2.wr_buf,
            v.wr_buf,
        ),
    decreases p.len(), 1int,
{
    reveal(ChunkView::process_spec);
    if h.type_id == msg_type::AGGREGATE {
        lemma_aggregate_io(v, p, Seq::empty());
        if let Some((v1, Ok(ms))) = v.aggregate_spec(p, Seq::empty()) {
            lemma_react_io(v1, MessageView::Aggregate(ms));
            if let Some((v2, _)) = v1.react(MessageView::Aggregate(ms)) {
                lemma_extends_trans(v2.wr_buf, v1.wr_buf, v.wr_buf);
            }
        }
    } else {
        if let Some(m) = ChunkView::decode_simple(h, p) {
            lemma_react_io(v, m);
        }
    }
}

/// Processing the sub-messages of an aggregate message leaves the received
/// bytes alone and only appends to the bytes to send.
proof fn lemma_aggregate_io(v: ChunkView, rest: Seq<u8>, acc: Seq<MessageView>)
    ensures
        v.aggregate_spec(rest, acc) matches Some((v2, _)) ==> v2.rd_buf == v.rd_buf && v2.bytes_in == v.bytes_in && extends(
            v2.wr_buf,
            v.wr_buf,
        ),
    decreases rest.len(), 0int,
{
    reveal(ChunkView::process_spec);
    assert(v.wr_buf.subrange(0, v.wr_buf.len() as int) =~= v.wr_buf);
    if rest.len() >= 11 {
        let h = ChunkView::sub_header(rest);
        let r1 = rest.skip(11);
        if h.length <= r1.len() {
            let sub = r1.take(h.length as int);
            let r2 = r1.skip(h.length as int);
            if r2.len() >= 4 {
                let r3 = r2.skip(4);
                lemma_process_io(v, h, sub);
                match v.process_spec(h, sub) {
                    Some((v1, Ok(Some(m)))) => {
                        lemma_aggregate_io(v1, r3, acc.push(m));
                        if let Some((v2, _)) = v1.aggregate_spec(r3, acc.push(m)) {
                            lemma_extends_trans(v2.wr_buf, v1.wr_buf, v.wr_buf);
                        }
                    },
                    Some((v1, Ok(None))) => {
                        lemma_aggregate_io(v1, r3, acc);
                        if let Some((v2, _)) = v1.aggregate_spec(r3, acc) {
                            lemma_extends_trans(v2.wr_buf, v1.wr_buf, v.wr_buf);
                        }
                    },
                    _ => {},
                }
            }
        }
    }
}

proof fn lemma_data_stage_io(v: ChunkView, cs_id: u32)
    requires
        v.wf(),
    ensures
        v.data_stage(cs_id) matches Some((v2, _)) ==> drains(v2.rd_buf, v.rd_buf) && v2.bytes_in == v.bytes_in && extends(
            v2.wr_buf,
            v.wr_buf,
        ),
{
    reveal(ChunkView::data_stage);
    reveal(ChunkView::deliver);
    assert(v.wr_buf.subrange(0, v.wr_buf.len() as int) =~= v.wr_buf);
    assert(v.rd_buf.skip(0) =~= v.rd_buf);
    if v.streams.contains_key(cs_id) {
        let p = v.streams[cs_id];
        let length = p.header.length;
        let ts = p.header.timestamp + p.header.timestamp_delta;
        if ts <= u32::MAX && p.payload.len() <= length {
            let h = Header { timestamp: ts as u32, ..p.header };
            let left = if v.in_chunk_size < length - p.payload.len() {
                v.in_chunk_size as int
            } else {
                length - p.payload.len()
            };
            if left <= v.rd_buf.len() {
                let payload = p.payload + v.rd_buf.take(left);
                let v2 = ChunkView {
                    streams: v.streams.insert(cs_id, PacketView { header: h, payload }),
                    rd_buf: v.rd_buf.skip(left),
                    ..v
                };
                assert(v.rd_buf.skip(v.rd_buf.len() - v2.rd_buf.len()) =~= v2.rd_buf);
                if payload.len() == length {
                    let q = v2.streams[cs_id];
                    lemma_process_io(v2, q.header, q.payload);
                    if let Some((v3, _)) = v2.process_spec(q.header, q.payload) {
                        assert(v3.clear_payload(cs_id).rd_buf == v3.rd_buf);
                        assert(v3.clear_payload(cs_id).wr_buf == v3.wr_buf);
                    }
                }
            }
        }
    }
}

proof fn lemma_header_stage_io(v: ChunkView, fmt: u8, cs_id: u32)
    requires
        v.wf(),
    ensures
        v.header_stage(fmt, cs_id) matches Some((v2, _)) ==> drains(v2.rd_buf, v.rd_buf) && v2.bytes_in == v.bytes_in
            && extends(v2.wr_buf, v.wr_buf),
{
    reveal(ChunkView::header_stage);
    let rd = v.rd_buf;
    assert(v.wr_buf.subrange(0, v.wr_buf.len() as int) =~= v.wr_buf);
    assert(rd.skip(0) =~= rd);
    if rd.len() >= message_header_len(fmt) {
        if fmt == 3 {
            lemma_data_stage_io(ChunkView { state: ChunkState::ChunkMessageHeader { cs_id }, ..v }, cs_id);
        } else if v.streams.contains_key(cs_id) {
            let p = v.streams[cs_id];
            if let Some((h, k)) = update_header(p.header, rd, fmt) {
                let v1 = ChunkView {
                    state: ChunkState::ChunkMessageHeader { cs_id },
                    streams: v.streams.insert(cs_id, PacketView { header: h, ..p }),
                    rd_buf: rd.skip(k as int),
                    ..v
                };
                lemma_data_stage_io(v1, cs_id);
                if let Some((v2, _)) = v1.data_stage(cs_id) {
                    lemma_drains_skip(rd, k as int, v2.rd_buf);
                }
            }
        } else if fmt == 0 {
            let v1 = ChunkView {
                state: ChunkState::ChunkMessageHeader { cs_id },
                streams: v.streams.insert(
                    cs_id,
                    PacketView { header: new_header(rd), payload: Seq::empty() },
                ),
                rd_buf: rd.skip(11),
                ..v
            };
            lemma_data_stage_io(v1, cs_id);
            if let Some((v2, _)) = v1.data_stage(cs_id) {
                lemma_drains_skip(rd, 11, v2.rd_buf);
            }
        }
    }
}

/// The decoder reads the received bytes in order and never puts any back:
/// after a call of `poll`, the bytes left are a suffix of those it had, the
/// bytes to send are those it had with bytes appended, and the count of bytes
/// received stays as it was.
pub proof fn law_poll_reads_in_order(v: ChunkView)
    requires
        v.wf(),
    ensures
        v.poll_spec() matches Some((v2, _)) ==> drains(v2.rd_buf, v.rd_buf) && v2.bytes_in == v.bytes_in && extends(
            v2.wr_buf,
            v.wr_buf,
        ),
{
    match v.state {
        ChunkState::Uninitialized => {
            assert(v.rd_buf.skip(0) =~= v.rd_buf);
            assert(v.wr_buf.subrange(0, v.wr_buf.len() as int) =~= v.wr_buf);
            if v.rd_buf.len() > 0 {
                if let Some((fmt, cs_id, k)) = parse_basic_header(v.rd_buf) {
                    let v1 = ChunkView {
                        state: ChunkState::BasicHeader { fmt, cs_id },
                        rd_buf: v.rd_buf.skip(k as int),
                        ..v
                    };
                    lemma_header_stage_io(v1, fmt, cs_id);
                    if let Some((v2, _)) = v1.header_stage(fmt, cs_id) {
                        lemma_drains_skip(v.rd_buf, k as int, v2.rd_buf);
                    }
                }
            }
        },
        ChunkState::BasicHeader { fmt, cs_id } => lemma_header_stage_io(v, fmt, cs_id),
        ChunkState::ChunkMessageHeader { cs_id } => lemma_data_stage_io(v, cs_id),
    }
}

/// `push` only appends to the bytes to send and, of everything else, changes
/// at most the outgoing chunk size, and that only on a chunk size it accepts,
/// which becomes the new one.
pub proof fn law_push_appends(v: ChunkView, cs_id: u32, m: MessageView)
    ensures
        v.push_spec(cs_id, m) matches Some(v2) ==> {
            &&& extends(v2.wr_buf, v.wr_buf)
            &&& v2 == ChunkView { wr_buf: v2.wr_buf, out_chunk_size: v2.out_chunk_size, ..v }
            &&& v2.out_chunk_size != v.out_chunk_size ==> (m matches MessageView::SetChunkSize {
                chunk_size,
            } && chunk_size >= 128 && v2.out_chunk_size == chunk_size)
        },
{
    if let Some(v2) = v.push_spec(cs_id, m) {
        let k = v.wr_buf.len() as int;
        assert(v2.wr_buf.subrange(0, k) =~= v.wr_buf);
    }
}

/// The count of bytes received moves only with `buffering`, by the number of
/// bytes it is given cut to 32 bits; `poll` and `push` leave it as it is, as
/// `flush_write_buffer` does by its own contract.
pub proof fn law_bytes_in_counts(v: ChunkView, input: Seq<u8>, cs_id: u32, m: MessageView)
    requires
        v.wf(),
    ensures
        v.buffering_defined(input.len()) ==> v.buffering_spec(input).bytes_in == v.bytes_in + (
        input.len() as u32),
        v.poll_spec() matches Some((v2, _)) ==> v2.bytes_in == v.bytes_in,
        v.push_spec(cs_id, m) matches Some(v2) ==> v2.bytes_in == v.bytes_in,
{
    law_poll_reads_in_order(v);
}

/// `buffering` queues the bytes and counts them. Once the count has moved on
/// by more than a tenth of the window since the last acknowledgement, it
/// writes an Ack of the count on chunk stream 2 and takes the count as
/// acknowledged; otherwise it writes nothing. So after an acknowledgement, a
/// second call writes nothing exactly when it brings no more than a tenth of
/// the window.
pub proof fn law_buffering_acknowledges(v: ChunkView, a: Seq<u8>, b: Seq<u8>)
    requires
        v.buffering_defined(a.len()),
    ensures
        ({
            let v1 = v.buffering_spec(a);
            let n = (v.bytes_in + (a.len() as u32)) as u32;
            &&& v1.bytes_in == n
            &&& v1.rd_buf == v.rd_buf + a
            &&& v1.window_size == v.window_size
            &&& if n > v.bytes_in_sent + v.window_size / 10 {
                &&& v1.bytes_in_sent == n
                &&& v1.wr_buf == v.wr_buf + seq![0x42u8, 0u8, 0u8, 0u8, 0u8, 0u8, 4u8, 3u8] + be32(n)
            } else {
                &&& v1.bytes_in_sent == v.bytes_in_sent
                &&& v1.wr_buf == v.wr_buf
            }
            &&& (n > v.bytes_in_sent + v.window_size / 10 && v1.buffering_defined(b.len()))
                ==> (v1.buffering_spec(b).wr_buf == v1.wr_buf <==> (b.len() as u32)
                <= v.window_size / 10)
        }),
{
    let v1 = v.buffering_spec(a);
    let n = (v.bytes_in + (a.len() as u32)) as u32;
    if n > v.bytes_in_sent + v.window_size / 10 {
        assert(v1.wr_buf =~= v.wr_buf + seq![0x42u8, 0u8, 0u8, 0u8, 0u8, 0u8, 4u8, 3u8] + be32(n));
        if v1.buffering_defined(b.len()) {
            let n2 = (v1.bytes_in + (b.len() as u32)) as u32;
            if n2 > v1.bytes_in_sent + v1.window_size / 10 {
                assert(v1.buffering_spec(b).wr_buf.len() > v1.wr_buf.len());
            }
        }
    }
}

/// A call on a `Chunk`, as the models see it.
pub enum Call {
    Buffering(Seq<u8>),
    Poll,
    Push(u32, MessageView),
    Flush,
}

/// What a sequence of calls does from the model `v`: the model after them,
/// or `None` where the contract of one of them does not admit it (the model
/// is not well formed, or the call is outside its defined inputs).
pub open spec fn run_calls(v: ChunkView, calls: Seq<Call>) -> Option<ChunkView>
    decreases calls.len(),
{
    if calls.len() == 0 {
        Some(v)
    } else if !v.wf() {
        None
    } else {
        let next = match calls[0] {
            Call::Buffering(input) => if v.buffering_defined(input.len()) {
                Some(v.buffering_spec(input))
            } else {
                None
            },
            Call::Poll => match v.poll_spec() {
                Some((v1, _)) => Some(v1),
                None => None,
            },
            Call::Push(cs_id, m) => v.push_spec(cs_id, m),
            Call::Flush => Some(ChunkView { wr_buf: Seq::empty(), ..v }),
        };
        match next {
            None => None,
            Some(v1) => run_calls(v1, calls.skip(1)),
        }
    }
}

/// The number of bytes that the calls hand to `buffering`, each count cut to
/// 32 bits.
pub open spec fn bytes_buffered(calls: Seq<Call>) -> nat
    decreases calls.len(),
{
    if calls.len() == 0 {
        0
    } else {
        (match calls[0] {
            Call::Buffering(input) => (input.len() as u32) as nat,
            _ => 0,
        }) + bytes_buffered(calls.skip(1))
    }
}

/// Over any sequence of calls that the contracts admit, the count of bytes
/// received grows by exactly the number of bytes handed to `buffering`.
pub proof fn law_bytes_in_sums(v: ChunkView, calls: Seq<Call>)
    ensures
        run_calls(v, calls) matches Some(v2) ==> v2.bytes_in == v.bytes_in + bytes_buffered(calls),
    decreases calls.len(),
{
    if calls.len() > 0 && v.wf() {
        match calls[0] {
            Call::Buffering(input) => {
                law_bytes_in_counts(v, input, 0, MessageView::Ack { sequence_number: 0 });
                if v.buffering_defined(input.len()) {
                    law_bytes_in_sums(v.buffering_spec(input), calls.skip(1));
                }
            },
            Call::Poll => {
                law_bytes_in_counts(v, Seq::empty(), 0, MessageView::Ack { sequence_number: 0 });
                if let Some((v1, _)) = v.poll_spec() {
                    law_bytes_in_sums(v1, calls.skip(1));
                }
            },
            Call::Push(cs_id, m) => {
                law_bytes_in_counts(v, Seq::empty(), cs_id, m);
                if let Some(v1) = v.push_spec(cs_id, m) {
                    law_bytes_in_sums(v1, calls.skip(1));
                }
            },
            Call::Flush => {
                law_bytes_in_sums(ChunkView { wr_buf: Seq::empty(), ..v }, calls.skip(1));
            },
        }
    }
}

} // verus!
