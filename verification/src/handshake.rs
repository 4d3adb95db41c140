//! The server side of the RTMP handshake (C0/C1/C2 in, S0/S1/S2 out).

use std::collections::VecDeque;
use vstd::prelude::*;

use crate::buffer::deque_get_u32;
use crate::clock::unix_time_millis;
use crate::wire::{be32, be32_value};

verus! {

/// Length of the random block of S1 and C1.
pub const RANDOM_LEN: usize = 1528;

/// Length of C0 and C1 together.
pub const C0_C1_LEN: usize = 1537;

/// Length of C2.
pub const C2_LEN: usize = 1536;

#[derive(Debug)]
pub enum HandshakeError {
    UnsupportedVersion,
    EchoMismatch,
    Done,
}

/// Where the handshake stands.
#[derive(Debug, Clone, Copy)]
pub enum HandshakeState {
    Uninitialized,
    VersionSent,
    AckSent,
    Done,
}

pub struct Handshake {
    state: HandshakeState,
    buffer: VecDeque<u8>,
    time: u32,
    p1: Vec<u8>,
}

/// The mathematical model of a `Handshake`.
pub struct HandshakeView {
    pub state: HandshakeState,
    /// Bytes received and not consumed yet.
    pub buffer: Seq<u8>,
    /// The time sent in S1.
    pub time: u32,
    /// The random block sent in S1.
    pub p1: Seq<u8>,
}

impl View for Handshake {
    type V = HandshakeView;

    closed spec fn view(&self) -> HandshakeView {
        HandshakeView { state: self.state, buffer: self.buffer@, time: self.time, p1: self.p1@ }
    }
}

/// The model of a result of `consume`.
pub open spec fn result_view(r: Result<Vec<u8>, HandshakeError>) -> Result<Seq<u8>, HandshakeError> {
    match r {
        Ok(v) => Ok(v@),
        Err(e) => Err(e),
    }
}

impl HandshakeView {
    /// The random block is empty before S1 is sent and holds `RANDOM_LEN`
    /// bytes afterwards.
    pub open spec fn wf(self) -> bool {
        if self.state == HandshakeState::Uninitialized {
            self.p1.len() == 0
        } else {
            self.p1.len() == RANDOM_LEN
        }
    }

    /// The inputs on which `consume` is defined: once S2 is sent, the data
    /// received must reach the length of C2.
    pub open spec fn consume_defined(self, input_len: nat) -> bool {
        self.state == HandshakeState::AckSent ==> self.buffer.len() + input_len >= C2_LEN
    }

    /// S0 and S1: the version, the time, four zero bytes and the random block.
    pub open spec fn s0_s1(time: u32, p1: Seq<u8>) -> Seq<u8> {
        seq![3u8] + be32(time) + seq![0u8, 0u8, 0u8, 0u8] + p1
    }

    /// S2 for C0 and C1 in `b`: the peer's time, our time `time2`, and the
    /// peer's random block.
    pub open spec fn s2(b: Seq<u8>, time2: u32) -> Seq<u8> {
        b.subrange(1, 5) + be32(time2) + b.subrange(9, C0_C1_LEN as int)
    }

    /// What one call of `consume` does: the new model and the result, given
    /// the bytes received, the random block for S1 and the clock reading.
    /// C0 and C1 are read only when exactly 1537 bytes are buffered, and C2
    /// only when more than 1536 are.
    pub open spec fn consume_step(
        self,
        input: Seq<u8>,
        random: Seq<u8>,
        now: Option<u32>,
    ) -> (HandshakeView, Result<Seq<u8>, HandshakeError>) {
        let b = self.buffer + input;
        match self.state {
            HandshakeState::Uninitialized => {
                let time = match now {
                    Some(t) => t,
                    None => self.time,
                };
                let p1 = self.p1 + random;
                (
                    HandshakeView { state: HandshakeState::VersionSent, buffer: b, time, p1 },
                    Ok(Self::s0_s1(time, p1)),
                )
            },
            HandshakeState::VersionSent => {
                if b.len() != C0_C1_LEN {
                    (HandshakeView { buffer: b, ..self }, Ok(Seq::empty()))
                } else if b[0] < 3 {
                    (
                        HandshakeView { buffer: b.subrange(1, b.len() as int), ..self },
                        Err(HandshakeError::UnsupportedVersion),
                    )
                } else {
                    let time2 = match now {
                        Some(t) => t,
                        None => 0u32,
                    };
                    (
                        HandshakeView {
                            state: HandshakeState::AckSent,
                            buffer: Seq::empty(),
                            ..self
                        },
                        Ok(Self::s2(b, time2)),
                    )
                }
            },
            HandshakeState::AckSent => {
                if b.len() == C2_LEN {
                    (HandshakeView { buffer: b, ..self }, Ok(Seq::empty()))
                } else if b.subrange(8, C2_LEN as int) == self.p1 {
                    (
                        HandshakeView {
                            state: HandshakeState::Done,
                            buffer: b.subrange(C2_LEN as int, b.len() as int),
                            ..self
                        },
                        Err(HandshakeError::Done),
                    )
                } else {
                    (
                        HandshakeView {
                            buffer: b.subrange(C2_LEN as int, b.len() as int),
                            ..self
                        },
                        Err(HandshakeError::EchoMismatch),
                    )
                }
            },
            HandshakeState::Done => {
                (HandshakeView { buffer: b, ..self }, Err(HandshakeError::Done))
            },
        }
    }
}

/// Appends the big-endian bytes of `x`.
fn put_u32(v: &mut Vec<u8>, x: u32)
    ensures
        final(v)@ == old(v)@ + be32(x),
{
    v.push((x / 0x1000000) as u8);
    v.push(((x / 0x10000) % 0x100) as u8);
    v.push(((x / 0x100) % 0x100) as u8);
    v.push((x % 0x100) as u8);
    assert(final(v)@ =~= old(v)@ + be32(x));
}

/// The four bytes of `s` read as a big-endian number are written back unchanged.
proof fn lemma_be32_of_value(s: Seq<u8>)
    requires
        s.len() == 4,
    ensures
        be32_value(s) <= u32::MAX,
        be32(be32_value(s) as u32) =~= s,
{
    let v = be32_value(s);
    assert(v / 0x1000000 == s[0]);
    assert((v / 0x10000) % 0x100 == s[1]);
    assert((v / 0x100) % 0x100 == s[2]);
    assert(v % 0x100 == s[3]);
}

impl Handshake {
    /// A handshake that has received nothing.
    pub fn new() -> (h: Self)
        ensures
            h@.state == HandshakeState::Uninitialized,
            h@.buffer == Seq::<u8>::empty(),
            h@.time == 0,
            h@.p1 == Seq::<u8>::empty(),
            h@.wf(),
    {
        Handshake {
            state: HandshakeState::Uninitialized,
            buffer: VecDeque::with_capacity(C0_C1_LEN),
            time: 0,
            p1: Vec::<u8>::with_capacity(RANDOM_LEN),
        }
    }

    /// Whether `consume` is defined on `input_len` more bytes.
    pub fn can_consume(&self, input_len: usize) -> (r: bool)
        ensures
            r == self@.consume_defined(input_len as nat),
    {
        match self.state {
            HandshakeState::AckSent => input_len >= C2_LEN || self.buffer.len() >= C2_LEN - input_len,
            _ => true,
        }
    }

    /// Takes the bytes received and returns what to send back: S0 and S1 on
    /// the first call, S2 once C0 and C1 are in, and `Done` once C2 is in and
    /// echoes S1. The random block `random` becomes the body of S1 when the
    /// handshake starts. The clock is read for the times of S1 and S2; which
    /// reading came back is not stated, so the result is that of
    /// `consume_step` for some reading.
    ///
    /// Unlike RTMP, C2 alone (exactly 1536 bytes with nothing after it) is
    /// answered with nothing: the handshake completes only once more bytes
    /// follow C2. Less than C2 once S2 is sent is outside `consume_defined`.
    pub fn consume(&mut self, buf: &[u8], random: &[u8; 1528]) -> (r: Result<
        Vec<u8>,
        HandshakeError,
    >)
        requires
            old(self)@.wf(),
            old(self)@.consume_defined(buf@.len()),
        ensures
            final(self)@.wf(),
            exists|now: Option<u32>|
                (final(self)@, result_view(r)) == #[trigger] old(self)@.consume_step(
                    buf@,
                    random@,
                    now,
                ),
    {
        let now = unix_time_millis();
        self.consume_at(buf, random, now)
    }

    /// `consume` with the clock reading `now` given, in milliseconds since the
    /// Unix epoch cut to 32 bits, or `None` for a clock before the epoch.
    pub fn consume_at(&mut self, buf: &[u8], random: &[u8; 1528], now: Option<u32>) -> (r: Result<
        Vec<u8>,
        HandshakeError,
    >)
        requires
            old(self)@.wf(),
            old(self)@.consume_defined(buf@.len()),
        ensures
            final(self)@.wf(),
            (final(self)@, result_view(r)) == old(self)@.consume_step(buf@, random@, now),
    {
        let ghost b = self.buffer@ + buf@;
        let mut i: usize = 0;
        while i < buf.len()
            invariant
                i <= buf.len(),
                self.buffer@ == old(self).buffer@ + buf@.subrange(0, i as int),
                old(self)@.wf(),
                old(self)@.consume_defined(buf@.len()),
                self.state == old(self).state,
                self.time == old(self).time,
                self.p1@ == old(self).p1@,
            decreases buf.len() - i,
        {
            self.buffer.push_back(buf[i]);
            i = i + 1;
            assert(self.buffer@ =~= old(self).buffer@ + buf@.subrange(0, i as int));
        }
        assert(buf@.subrange(0, buf@.len() as int) =~= buf@);
        assert(self.buffer@ == b);
        assert(b + Seq::<u8>::empty() =~= b);
        match self.state {
            HandshakeState::Uninitialized => self.generate_p0_p1(random, now),
            HandshakeState::VersionSent => self.stage_p0_p1(Ghost(random@), now),
            HandshakeState::AckSent => self.stage_p2(Ghost(random@), Ghost(now)),
            HandshakeState::Done => Err(HandshakeError::Done),
        }
    }

    fn generate_p0_p1(&mut self, random: &[u8; 1528], now: Option<u32>) -> (r: Result<
        Vec<u8>,
        HandshakeError,
    >)
        requires
            old(self)@.wf(),
            old(self)@.state == HandshakeState::Uninitialized,
        ensures
            final(self)@.wf(),
            (final(self)@, result_view(r)) == old(self)@.consume_step(Seq::empty(), random@, now),
    {
        let mut buf = Vec::<u8>::with_capacity(C0_C1_LEN);
        // S0: the version
        buf.push(3u8);
        // S1: the time, which may be 0
        if let Some(t) = now {
            self.time = t;
        }
        put_u32(&mut buf, self.time);
        // S1: four zero bytes
        put_u32(&mut buf, 0);
        // S1: the random block
        let mut i: usize = 0;
        while i < RANDOM_LEN
            invariant
                i <= RANDOM_LEN,
                random@.len() == RANDOM_LEN,
                self.p1@ == old(self).p1@ + random@.subrange(0, i as int),
                self.state == old(self).state,
                self.buffer@ == old(self).buffer@,
                self.time == (match now { Some(t) => t, None => old(self).time }),
                buf@ == seq![3u8] + be32(self.time) + seq![0u8, 0u8, 0u8, 0u8],
            decreases RANDOM_LEN - i,
        {
            self.p1.push(random[i]);
            i = i + 1;
            assert(self.p1@ =~= old(self).p1@ + random@.subrange(0, i as int));
        }
        assert(random@.subrange(0, RANDOM_LEN as int) =~= random@);
        let ghost head = buf@;
        let mut j: usize = 0;
        while j < self.p1.len()
            invariant
                j <= self.p1@.len(),
                buf@ == head + self.p1@.subrange(0, j as int),
                head == seq![3u8] + be32(self.time) + seq![0u8, 0u8, 0u8, 0u8],
                self.p1@ == old(self).p1@ + random@,
                self.state == old(self).state,
                self.buffer@ == old(self).buffer@,
                self.time == (match now { Some(t) => t, None => old(self).time }),
            decreases self.p1@.len() - j,
        {
            buf.push(self.p1[j]);
            j = j + 1;
            assert(buf@ =~= head + self.p1@.subrange(0, j as int));
        }
        assert(self.p1@.subrange(0, self.p1@.len() as int) =~= self.p1@);
        assert(buf@ =~= HandshakeView::s0_s1(self.time, self.p1@));
        self.state = HandshakeState::VersionSent;
        assert(self.buffer@ =~= old(self).buffer@ + Seq::<u8>::empty());
        Ok(buf)
    }

    fn stage_p0_p1(&mut self, Ghost(random): Ghost<Seq<u8>>, now: Option<u32>) -> (r: Result<Vec<u8>, HandshakeError>)
        requires
            old(self)@.wf(),
            old(self)@.state == HandshakeState::VersionSent,
        ensures
            final(self)@.wf(),
            (final(self)@, result_view(r)) == old(self)@.consume_step(Seq::empty(), random, now),
    {
        let ghost b = self.buffer@;
        assert(b + Seq::<u8>::empty() =~= b);
        if C0_C1_LEN != self.buffer.len() {
            return Ok(Vec::<u8>::new());
        }
        let version = self.buffer.pop_front().unwrap();
        if version < 3 {
            return Err(HandshakeError::UnsupportedVersion);
        }
        // the peer's time
        let t0 = self.buffer.pop_front().unwrap();
        let t1 = self.buffer.pop_front().unwrap();
        let t2 = self.buffer.pop_front().unwrap();
        let t3 = self.buffer.pop_front().unwrap();
        let time: u32 = ((t0 as u32 * 256 + t1 as u32) * 256 + t2 as u32) * 256 + t3 as u32;
        proof {
            lemma_be32_of_value(b.subrange(1, 5));
        }
        assert(be32(time) =~= b.subrange(1, 5));
        // the four zero bytes
        let _ = self.buffer.pop_front();
        let _ = self.buffer.pop_front();
        let _ = self.buffer.pop_front();
        let _ = self.buffer.pop_front();
        assert(self.buffer@ =~= b.subrange(9, C0_C1_LEN as int));

        let time2: u32 = match now {
            Some(t) => t,
            None => 0,
        };

        let mut buf = Vec::<u8>::with_capacity(C2_LEN);
        // the peer's time
        put_u32(&mut buf, time);
        // our time
        put_u32(&mut buf, time2);
        // the echo of the peer's random block
        let ghost head = buf@;
        let mut i: usize = 0;
        while i < RANDOM_LEN
            invariant
                i <= RANDOM_LEN,
                b.len() == C0_C1_LEN,
                self.buffer@ == b.subrange(9 + i, C0_C1_LEN as int),
                buf@ == head + b.subrange(9, 9 + i),
                head == be32(time) + be32(time2),
                be32(time) == b.subrange(1, 5),
                self.state == old(self).state,
                self.time == old(self).time,
                self.p1@ == old(self).p1@,
            decreases RANDOM_LEN - i,
        {
            let n = self.buffer.pop_front().unwrap();
            buf.push(n);
            i = i + 1;
            assert(self.buffer@ =~= b.subrange(9 + i, C0_C1_LEN as int));
            assert(buf@ =~= head + b.subrange(9, 9 + i));
        }
        assert(self.buffer@ =~= Seq::<u8>::empty());
        assert(buf@ =~= HandshakeView::s2(b, time2));
        self.state = HandshakeState::AckSent;
        Ok(buf)
    }

    fn stage_p2(&mut self, Ghost(random): Ghost<Seq<u8>>, Ghost(now): Ghost<Option<u32>>) -> (r: Result<Vec<u8>, HandshakeError>)
        requires
            old(self)@.wf(),
            old(self)@.state == HandshakeState::AckSent,
            old(self)@.consume_defined(0),
        ensures
            final(self)@.wf(),
            (final(self)@, result_view(r)) == old(self)@.consume_step(Seq::empty(), random, now),
    {
        let ghost b = self.buffer@;
        assert(b + Seq::<u8>::empty() =~= b);
        if C2_LEN == self.buffer.len() {
            return Ok(Vec::<u8>::new());
        }
        // the time and our time echoed by the peer
        let _time = deque_get_u32(&mut self.buffer);
        let _time2 = deque_get_u32(&mut self.buffer);
        assert(self.buffer@ =~= b.subrange(8, b.len() as int));
        let mut mismatch = false;
        let mut i: usize = 0;
        while i < RANDOM_LEN
            invariant
                i <= RANDOM_LEN,
                b.len() > C2_LEN,
                self.p1@.len() == RANDOM_LEN,
                self.buffer@ == b.subrange(8 + i, b.len() as int),
                self.state == old(self).state,
                self.time == old(self).time,
                self.p1@ == old(self).p1@,
                mismatch <==> exists|j: int| 0 <= j < i && b[8 + j] != self.p1@[j],
            decreases RANDOM_LEN - i,
        {
            let n = self.buffer.pop_front().unwrap();
            if n != self.p1[i] {
                mismatch = true;
            }
            i = i + 1;
            assert(self.buffer@ =~= b.subrange(8 + i, b.len() as int));
        }
        if mismatch {
            assert(b.subrange(8, C2_LEN as int) != self.p1@) by {
                let j = choose|j: int| 0 <= j < RANDOM_LEN && b[8 + j] != self.p1@[j];
                assert(b.subrange(8, C2_LEN as int)[j] == b[8 + j]);
            }
            return Err(HandshakeError::EchoMismatch);
        }
        assert(b.subrange(8, C2_LEN as int) =~= self.p1@);
        self.state = HandshakeState::Done;
        Err(HandshakeError::Done)
    }
}

} // verus!
