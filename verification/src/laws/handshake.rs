//! The handshake moves forward one state at a time and runs to its end.

use vstd::prelude::*;

use crate::handshake::{HandshakeError, HandshakeState, HandshakeView, C0_C1_LEN, C2_LEN, RANDOM_LEN};

verus! {

/// The position of a state in the handshake.
pub open spec fn state_rank(s: HandshakeState) -> nat {
    match s {
        HandshakeState::Uninitialized => 0,
        HandshakeState::VersionSent => 1,
        HandshakeState::AckSent => 2,
        HandshakeState::Done => 3,
    }
}

/// A call of `consume` leaves the handshake in its state or moves it to the
/// next one. It moves only when it answers with bytes to send (S0 and S1 from
/// the start, S2 once C0 and C1 are in) or reports `Done` after S2 was sent;
/// an empty answer, `UnsupportedVersion` and `EchoMismatch` leave the state as
/// it was.
pub proof fn law_handshake_progress(
    h: HandshakeView,
    input: Seq<u8>,
    random: Seq<u8>,
    now: Option<u32>,
)
    ensures
        ({
            let (h2, r) = h.consume_step(input, random, now);
            &&& h2.state == h.state || state_rank(h2.state) == state_rank(h.state) + 1
            &&& h2.state != h.state ==> {
                ||| h.state == HandshakeState::Uninitialized && r is Ok && r->Ok_0.len() > 0
                ||| h.state == HandshakeState::VersionSent && r is Ok && r->Ok_0.len() > 0
                ||| h.state == HandshakeState::AckSent && r == Err::<Seq<u8>, HandshakeError>(
                    HandshakeError::Done,
                )
            }
            &&& (r == Ok::<Seq<u8>, HandshakeError>(Seq::empty()) || r == Err::<
                Seq<u8>,
                HandshakeError,
            >(HandshakeError::UnsupportedVersion) || r == Err::<Seq<u8>, HandshakeError>(
                HandshakeError::EchoMismatch,
            )) ==> h2.state == h.state
        }),
{
    let (h2, r) = h.consume_step(input, random, now);
    if h.state == HandshakeState::Uninitialized {
        assert(r->Ok_0.len() > 0) by {
            assert(r->Ok_0[0] == 3u8);
        }
    } else if h.state == HandshakeState::VersionSent {
        if r is Ok && h2.state != h.state {
            assert(r->Ok_0.len() == 1528 + 8);
        }
    }
}

/// A client that sends C0 and C1 with version 3 or more, then C2 echoing the
/// random block of S1, completes the handshake: the server answers the first
/// bytes with S0 and S1, answers once C0 and C1 are all in with S2 (the
/// client's time, the server's, and the client's random block), and reports
/// the handshake done once C2 is in and more bytes follow it. The bytes after
/// C2 stay buffered.
pub proof fn law_handshake_completes(
    h0: HandshakeView,
    c0_c1: Seq<u8>,
    c2: Seq<u8>,
    more: Seq<u8>,
    random: Seq<u8>,
    random2: Seq<u8>,
    random3: Seq<u8>,
    now1: Option<u32>,
    now2: Option<u32>,
    now3: Option<u32>,
)
    requires
        h0.state == HandshakeState::Uninitialized,
        h0.buffer == Seq::<u8>::empty(),
        h0.wf(),
        random.len() == RANDOM_LEN,
        c0_c1.len() == C0_C1_LEN,
        c0_c1[0] >= 3,
        c2.len() == C2_LEN,
        c2.subrange(8, C2_LEN as int) == random,
        more.len() > 0,
    ensures
        ({
            let (h1, r1) = h0.consume_step(c0_c1, random, now1);
            let (h2, r2) = h1.consume_step(Seq::empty(), random2, now2);
            let (h3, r3) = h2.consume_step(c2 + more, random3, now3);
            &&& r1 == Ok::<Seq<u8>, HandshakeError>(HandshakeView::s0_s1(h1.time, random))
            &&& h1.consume_defined(0)
            &&& r2 == Ok::<Seq<u8>, HandshakeError>(HandshakeView::s2(c0_c1, if let Some(t) = now2 { t } else { 0 }))
            &&& h2.state == HandshakeState::AckSent
            &&& h2.consume_defined((c2 + more).len())
            &&& r3 == Err::<Seq<u8>, HandshakeError>(HandshakeError::Done)
            &&& h3.state == HandshakeState::Done
            &&& h3.buffer == more
        }),
{
    let (h1, r1) = h0.consume_step(c0_c1, random, now1);
    assert(h0.p1 + random =~= random);
    assert(h0.buffer + c0_c1 =~= c0_c1);
    assert(h1.buffer + Seq::<u8>::empty() =~= c0_c1);
    let (h2, r2) = h1.consume_step(Seq::empty(), random2, now2);
    let b = h2.buffer + (c2 + more);
    assert(b =~= c2 + more);
    assert(b.subrange(8, C2_LEN as int) =~= c2.subrange(8, C2_LEN as int));
    assert(b.subrange(C2_LEN as int, b.len() as int) =~= more);
}

} // verus!
