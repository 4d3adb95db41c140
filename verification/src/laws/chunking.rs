//! A message cut into chunks at the decoder's chunk size reads back whole.

use vstd::prelude::*;

use crate::amf_codec::{amf0_values, amf_encodings};
use crate::chunk::{basic_header_bytes, command_frame, command_head, continuation_chunks, parse_basic_header, split_body, ChunkState, ChunkView, ErrorView, PacketView, PollView};
use crate::laws::codec::{amf_reads_back, law_amf0_values_roundtrip, command_header, lemma_command_header, law_basic_header_roundtrip, opened};
use crate::message::MessageView;

verus! {

/// What `n` calls of `poll` do from the model `v`: the model after them and
/// their results in order, or `None` where one of them is not defined.
pub open spec fn poll_times(v: ChunkView, n: nat) -> Option<(ChunkView, Seq<PollView>)>
    decreases n,
{
    if n == 0 {
        Some((v, Seq::empty()))
    } else {
        match v.poll_spec() {
            None => None,
            Some((v1, r)) => match poll_times(v1, (n - 1) as nat) {
                None => None,
                Some((v2, rs)) => Some((v2, seq![r] + rs)),
            },
        }
    }
}

/// The number of chunks that a message body of `len` bytes takes at chunk
/// size `size` (at least one).
pub open spec fn chunk_count(len: nat, size: nat) -> nat
    decreases len,
{
    if len <= size || size == 0 {
        1
    } else {
        1 + chunk_count((len - size) as nat, size)
    }
}

/// `n` results of `Ok(None)`, then `r`.
pub open spec fn waits_then(n: nat, r: PollView) -> Seq<PollView> {
    Seq::new(n, |i: int| Ok::<Option<MessageView>, ErrorView>(None)).push(r)
}

/// The model once a command frame of encoding `cmd` on chunk stream `cs_id`
/// is read, from `w` before it: the stream keeps the command's header with
/// an empty payload, and `rest` is left to read.
pub open spec fn command_read(w: ChunkView, cs_id: u32, cmd: Seq<u8>, rest: Seq<u8>) -> ChunkView {
    ChunkView {
        state: ChunkState::Uninitialized,
        streams: w.streams.insert(
            cs_id,
            PacketView { header: command_header(cmd.len()), payload: Seq::empty() },
        ),
        rd_buf: rest,
        ..w
    }
}

/// The model while such a frame is read: `k` bytes of the command gathered,
/// the continuation chunks of the others and then `rest` left to read.
spec fn gathering(w: ChunkView, cs_id: u32, cmd: Seq<u8>, k: nat, rest: Seq<u8>) -> ChunkView {
    ChunkView {
        state: ChunkState::Uninitialized,
        streams: w.streams.insert(
            cs_id,
            PacketView { header: command_header(cmd.len()), payload: cmd.take(k as int) },
        ),
        rd_buf: continuation_chunks(cs_id, cmd.skip(k as int), w.in_chunk_size as nat) + rest,
        ..w
    }
}

/// The size of the piece of the command after its first `k` bytes.
spec fn piece_len(w: ChunkView, cmd: Seq<u8>, k: nat) -> int {
    if w.in_chunk_size < cmd.len() - k {
        w.in_chunk_size as int
    } else {
        cmd.len() - k
    }
}

/// The model about to take the piece of the command after its first `k`
/// bytes.
spec fn at_piece(w: ChunkView, cs_id: u32, cmd: Seq<u8>, k: nat, rest: Seq<u8>) -> ChunkView {
    let m = piece_len(w, cmd, k);
    ChunkView {
        state: ChunkState::ChunkMessageHeader { cs_id },
        streams: w.streams.insert(
            cs_id,
            PacketView { header: command_header(cmd.len()), payload: cmd.take(k as int) },
        ),
        rd_buf: cmd.skip(k as int).take(m) + (continuation_chunks(
            cs_id,
            cmd.skip(k + m),
            w.in_chunk_size as nat,
        ) + rest),
        ..w
    }
}

/// Taking a piece of the command either completes it, and the command is
/// handed on, or leaves the decoder waiting for the next chunk.
proof fn lemma_take_piece(w: ChunkView, cs_id: u32, cmd: Seq<u8>, k: nat, rest: Seq<u8>)
    requires
        w.wf(),
        w.state == ChunkState::Uninitialized,
        k <= cmd.len(),
        cmd.len() <= 0xFFFFFF,
    ensures
        at_piece(w, cs_id, cmd, k, rest).data_stage(cs_id) == if k + piece_len(w, cmd, k)
            == cmd.len() {
            Some(
                (
                    command_read(w, cs_id, cmd, rest),
                    Ok::<Option<MessageView>, ErrorView>(
                        Some(MessageView::Command { values: amf0_values(cmd) }),
                    ),
                ),
            )
        } else {
            Some(
                (
                    gathering(w, cs_id, cmd, (k + piece_len(w, cmd, k)) as nat, rest),
                    Ok::<Option<MessageView>, ErrorView>(None),
                ),
            )
        },
{
    reveal(ChunkView::data_stage);
    reveal(ChunkView::deliver);
    reveal(ChunkView::process_spec);
    let m = piece_len(w, cmd, k);
    let h = command_header(cmd.len());
    let v = at_piece(w, cs_id, cmd, k, rest);
    let tail = continuation_chunks(cs_id, cmd.skip(k + m), w.in_chunk_size as nat) + rest;
    let piece = cmd.skip(k as int).take(m);
    assert(v.streams[cs_id] == PacketView { header: h, payload: cmd.take(k as int) });
    assert(v.rd_buf.take(m) =~= piece);
    assert(v.rd_buf.skip(m) =~= tail);
    assert(cmd.take(k as int) + piece =~= cmd.take(k + m));
    let payload = cmd.take(k + m);
    let v2 = ChunkView {
        streams: v.streams.insert(cs_id, PacketView { header: h, payload }),
        rd_buf: tail,
        ..v
    };
    assert(v.streams.insert(cs_id, PacketView { header: h, payload }) =~= w.streams.insert(
        cs_id,
        PacketView { header: h, payload },
    ));
    if k + m == cmd.len() {
        assert(payload =~= cmd);
        assert(cmd.skip(k + m).len() == 0);
        assert(tail =~= rest);
        assert(v2.clear_payload(cs_id).streams =~= w.streams.insert(
            cs_id,
            PacketView { header: h, payload: Seq::empty() },
        ));
    } else {
        assert(ChunkView { state: ChunkState::Uninitialized, ..v2 } == gathering(
            w,
            cs_id,
            cmd,
            (k + m) as nat,
            rest,
        ));
    }
}

/// A continuation chunk of the command takes one poll.
proof fn lemma_continuation_poll(w: ChunkView, cs_id: u32, cmd: Seq<u8>, k: nat, rest: Seq<u8>)
    requires
        w.wf(),
        w.state == ChunkState::Uninitialized,
        2 <= cs_id <= 62,
        0 < k < cmd.len(),
        cmd.len() <= 0xFFFFFF,
    ensures
        gathering(w, cs_id, cmd, k, rest).poll_spec() == at_piece(w, cs_id, cmd, k, rest).data_stage(
            cs_id,
        ),
{
    reveal(ChunkView::header_stage);
    let c = w.in_chunk_size as nat;
    let g = gathering(w, cs_id, cmd, k, rest);
    let body = cmd.skip(k as int);
    let m = piece_len(w, cmd, k);
    let tail = body.take(m) + (continuation_chunks(cs_id, cmd.skip(k + m), c) + rest);
    assert(body.skip(m) =~= cmd.skip(k + m));
    assert(g.rd_buf =~= basic_header_bytes(3, cs_id) + tail);
    law_basic_header_roundtrip(3, cs_id, tail);
    assert(parse_basic_header(g.rd_buf) == Some((3u8, cs_id, 1nat)));
    assert(g.rd_buf.skip(1) =~= tail);
    let g1 = ChunkView { state: ChunkState::BasicHeader { fmt: 3, cs_id }, rd_buf: tail, ..g };
    assert(g.poll_spec() == g1.header_stage(3, cs_id));
    assert(ChunkView { state: ChunkState::ChunkMessageHeader { cs_id }, ..g1 } == at_piece(
        w,
        cs_id,
        cmd,
        k,
        rest,
    ));
}

/// The polls after the first read the continuation chunks one by one, and
/// the last of them hands the command on.
proof fn lemma_continuations(w: ChunkView, cs_id: u32, cmd: Seq<u8>, k: nat, rest: Seq<u8>)
    requires
        w.wf(),
        w.state == ChunkState::Uninitialized,
        2 <= cs_id <= 62,
        0 < k < cmd.len(),
        cmd.len() <= 0xFFFFFF,
    ensures
        ({
            let n = chunk_count((cmd.len() - k) as nat, w.in_chunk_size as nat);
            poll_times(gathering(w, cs_id, cmd, k, rest), n) == Some(
                (
                    command_read(w, cs_id, cmd, rest),
                    waits_then(
                        (n - 1) as nat,
                        Ok(Some(MessageView::Command { values: amf0_values(cmd) })),
                    ),
                ),
            )
        }),
    decreases cmd.len() - k,
{
    let c = w.in_chunk_size as nat;
    let n = chunk_count((cmd.len() - k) as nat, c);
    let r = Ok::<Option<MessageView>, ErrorView>(
        Some(MessageView::Command { values: amf0_values(cmd) }),
    );
    let g = gathering(w, cs_id, cmd, k, rest);
    lemma_continuation_poll(w, cs_id, cmd, k, rest);
    lemma_take_piece(w, cs_id, cmd, k, rest);
    let m = piece_len(w, cmd, k);
    if cmd.len() - k <= c {
        assert(n == 1);
        assert(poll_times(command_read(w, cs_id, cmd, rest), 0) == Some(
            (command_read(w, cs_id, cmd, rest), Seq::<PollView>::empty()),
        ));
        assert(seq![r] + Seq::<PollView>::empty() =~= waits_then(0, r));
    } else {
        let k2 = (k + m) as nat;
        assert(m == c);
        assert(n == 1 + chunk_count((cmd.len() - k2) as nat, c));
        lemma_continuations(w, cs_id, cmd, k2, rest);
        let n2 = chunk_count((cmd.len() - k2) as nat, c);
        assert(seq![Ok::<Option<MessageView>, ErrorView>(None)] + waits_then((n2 - 1) as nat, r)
            =~= waits_then((n - 1) as nat, r));
    }
}

/// The frame of a command whose encoding is `cmd`, cut into chunks at the
/// decoder's own chunk size, read by a decoder waiting for a new chunk that
/// has not opened the chunk stream, takes one poll per chunk: each poll but
/// the last returns nothing, and the last returns the command with the values
/// that decode from `cmd`. The decoder then waits for a new chunk with the
/// bytes after the frame left to read. Chunk stream ids from 64 up are left
/// out: their basic header of format 3 does not read back.
pub proof fn law_chunked_command_roundtrip(w: ChunkView, cs_id: u32, cmd: Seq<u8>, rest: Seq<u8>)
    requires
        w.wf(),
        w.state == ChunkState::Uninitialized,
        !w.streams.contains_key(cs_id),
        2 <= cs_id <= 62,
        cmd.len() <= 0xFFFFFF,
        w.rd_buf == command_frame(cs_id, cmd, w.in_chunk_size as nat) + rest,
    ensures
        ({
            let n = chunk_count(cmd.len(), w.in_chunk_size as nat);
            poll_times(w, n) == Some(
                (
                    command_read(w, cs_id, cmd, rest),
                    waits_then(
                        (n - 1) as nat,
                        Ok(Some(MessageView::Command { values: amf0_values(cmd) })),
                    ),
                ),
            )
        }),
{
    let c = w.in_chunk_size as nat;
    let n = chunk_count(cmd.len(), c);
    let r = Ok::<Option<MessageView>, ErrorView>(
        Some(MessageView::Command { values: amf0_values(cmd) }),
    );
    let m = piece_len(w, cmd, 0);
    let after = split_body(cs_id, cmd, c) + rest;
    assert(w.rd_buf =~= command_head(cs_id, cmd.len()) + after);
    lemma_command_header(w, cs_id, cmd.len(), after);
    assert(cmd.skip(0) =~= cmd);
    assert(cmd.take(0) =~= Seq::<u8>::empty());
    assert(opened(w, cs_id, command_header(cmd.len()), Seq::empty(), after) == at_piece(
        w,
        cs_id,
        cmd,
        0,
        rest,
    )) by {
        assert(after =~= cmd.skip(0).take(m) + (continuation_chunks(cs_id, cmd.skip(m), c) + rest));
    }
    lemma_take_piece(w, cs_id, cmd, 0, rest);
    if cmd.len() <= c {
        assert(n == 1);
        assert(poll_times(command_read(w, cs_id, cmd, rest), 0) == Some(
            (command_read(w, cs_id, cmd, rest), Seq::<PollView>::empty()),
        ));
        assert(seq![r] + Seq::<PollView>::empty() =~= waits_then(0, r));
    } else {
        assert(m == c);
        assert(n == 1 + chunk_count((cmd.len() - m) as nat, c));
        lemma_continuations(w, cs_id, cmd, m as nat, rest);
        let n2 = chunk_count((cmd.len() - m) as nat, c);
        assert(seq![Ok::<Option<MessageView>, ErrorView>(None)] + waits_then((n2 - 1) as nat, r)
            =~= waits_then((n - 1) as nat, r));
    }
}

/// The frame that `push` writes for a command whose values `vs` the encoder
/// takes, read by a decoder whose chunk size is the encoder's outgoing chunk
/// size, waiting for a new chunk and with the chunk stream not opened, takes
/// one poll per chunk and reads back as a command whose values are those that
/// the decoder reads from the encodings of `vs`: `vs` itself, all of them,
/// wherever the `amf` decoder reads each value back from its encoding.
pub proof fn law_pushed_command_roundtrip(
    v: ChunkView,
    w: ChunkView,
    cs_id: u32,
    vs: Seq<amf::Value>,
    rest: Seq<u8>,
)
    requires
        v.wf(),
        w.wf(),
        w.state == ChunkState::Uninitialized,
        !w.streams.contains_key(cs_id),
        2 <= cs_id <= 62,
        v.out_chunk_size == w.in_chunk_size,
        v.push_spec(cs_id, MessageView::Command { values: vs }) is Some,
        amf_encodings(vs).len() <= 0xFFFFFF,
        w.rd_buf == v.push_spec(cs_id, MessageView::Command { values: vs }).unwrap().wr_buf.skip(
            v.wr_buf.len() as int,
        ) + rest,
    ensures
        ({
            let cmd = amf_encodings(vs);
            let n = chunk_count(cmd.len(), w.in_chunk_size as nat);
            &&& poll_times(w, n) == Some(
                (
                    command_read(w, cs_id, cmd, rest),
                    waits_then(
                        (n - 1) as nat,
                        Ok(Some(MessageView::Command { values: amf0_values(cmd) })),
                    ),
                ),
            )
            &&& (forall|i: int| 0 <= i < vs.len() ==> amf_reads_back(#[trigger] vs[i]))
                ==> poll_times(w, n).unwrap().1.last() == Ok::<Option<MessageView>, ErrorView>(
                Some(MessageView::Command { values: vs }),
            )
        }),
{
    let cmd = amf_encodings(vs);
    let frame = command_frame(cs_id, cmd, v.out_chunk_size as nat);
    assert((v.wr_buf + frame).skip(v.wr_buf.len() as int) =~= frame);
    law_chunked_command_roundtrip(w, cs_id, cmd, rest);
    if forall|i: int| 0 <= i < vs.len() ==> amf_reads_back(#[trigger] vs[i]) {
        law_amf0_values_roundtrip(vs);
    }
}

} // verus!
