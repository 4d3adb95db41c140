use bytes::BytesMut;
use rtmp::chunk::{Chunk, ChunkError, LimitType};
use rtmp::message::{Header, Message, MessagePacket, UserControlEvent};

fn written(c: &mut Chunk) -> Vec<u8> {
    c.flush_write_buffer().to_vec()
}

fn feed(c: &mut Chunk, bytes: &[u8]) {
    assert!(c.can_buffer(bytes.len()));
    c.buffering(bytes);
}

fn amf_bytes(values: &[amf::Value]) -> Vec<u8> {
    let mut out = Vec::new();
    for v in values {
        v.write_to(&mut out).unwrap();
    }
    out
}

fn connect_values() -> Vec<amf::Value> {
    vec![
        amf::Value::Amf0(amf::amf0::Value::String("connect".to_string())),
        amf::Value::Amf0(amf::amf0::Value::Number(1.0)),
    ]
}

#[test]
fn new_chunk_is_empty() {
    let c = Chunk::new();
    assert_eq!(c.get_write_buffer_length(), 0);
    assert_eq!(c.get_bytes_in(), 0);
}

#[test]
fn push_set_chunk_size_frame() {
    let mut c = Chunk::new();
    c.push(2, Message::SetChunkSize { chunk_size: 256 });
    assert_eq!(written(&mut c), vec![0x02, 0, 0, 0, 0, 0, 4, 1, 0, 0, 0, 0, 0, 0, 1, 0]);
    assert_eq!(c.get_write_buffer_length(), 0);
}

#[test]
fn push_small_chunk_size_is_ignored() {
    let mut c = Chunk::new();
    c.push(2, Message::SetChunkSize { chunk_size: 100 });
    assert_eq!(c.get_write_buffer_length(), 0);
}

#[test]
fn push_ack_frame() {
    let mut c = Chunk::new();
    c.push(2, Message::Ack { sequence_number: 0x0102_0304 });
    assert_eq!(written(&mut c), vec![0x42, 0, 0, 0, 0, 0, 4, 3, 1, 2, 3, 4]);
}

#[test]
fn push_window_ack_size_frame() {
    let mut c = Chunk::new();
    c.push(2, Message::WindowAckSize { ack_window_size: 2_500_000 });
    assert_eq!(
        written(&mut c),
        vec![0x02, 0, 0, 0, 0, 0, 4, 5, 0, 0, 0, 0, 0x00, 0x26, 0x25, 0xA0]
    );
}

#[test]
fn push_set_peer_bandwidth_frames() {
    let mut c = Chunk::new();
    for (lt, code) in [
        (LimitType::Hard, 0u8),
        (LimitType::Soft, 1),
        (LimitType::Dynamic, 2),
        (LimitType::Unknown(9), 2),
    ] {
        c.push(2, Message::SetPeerBandwidth { ack_window_size: 10_000_000, limit_type: lt });
        assert_eq!(
            written(&mut c),
            vec![0x02, 0, 0, 0, 0, 0, 5, 6, 0, 0, 0, 0, 0x00, 0x98, 0x96, 0x80, code]
        );
    }
}

#[test]
fn push_basic_header_forms() {
    let mut c = Chunk::new();
    c.push(100, Message::Ack { sequence_number: 1 });
    assert_eq!(written(&mut c), vec![0x40, 36, 0, 0, 0, 0, 0, 4, 3, 0, 0, 0, 1]);
    c.push(400, Message::Ack { sequence_number: 1 });
    assert_eq!(written(&mut c), vec![0x7f, 0x01, 0x50, 0, 0, 0, 0, 0, 4, 3, 0, 0, 0, 1]);
}

#[test]
fn push_command_frame() {
    let mut c = Chunk::new();
    let cmd = amf_bytes(&connect_values());
    c.push(3, Message::Command { payload: connect_values() });
    let mut expected = vec![0x03, 0, 0, 0, 0, 0, cmd.len() as u8, 0x14, 0, 0, 0, 0];
    expected.extend_from_slice(&cmd);
    assert_eq!(written(&mut c), expected);
}

#[test]
fn push_command_bytes_frame() {
    let mut c = Chunk::new();
    let cmd: Vec<u8> = (0..300u32).map(|i| i as u8).collect();
    c.push_command_bytes(3, &cmd);
    // the body is cut at the default chunk size of 128
    let mut expected = vec![0x03, 0, 0, 0, 0, 1, 44, 0x14, 0, 0, 0, 0];
    expected.extend_from_slice(&cmd[..128]);
    expected.push(0xC3);
    expected.extend_from_slice(&cmd[128..256]);
    expected.push(0xC3);
    expected.extend_from_slice(&cmd[256..]);
    assert_eq!(written(&mut c), expected);
}

#[test]
fn set_chunk_size_round_trip() {
    let mut a = Chunk::new();
    a.push(100, Message::SetChunkSize { chunk_size: 4096 });
    let frame = written(&mut a);
    let mut b = Chunk::new();
    feed(&mut b, &frame);
    match b.poll() {
        Ok(Some(Message::SetChunkSize { chunk_size: 4096 })) => {}
        other => panic!("unexpected {:?}", other),
    }
    assert!(matches!(b.poll(), Ok(None)));
}

#[test]
fn window_ack_size_round_trip_moves_the_acknowledgement() {
    let mut a = Chunk::new();
    a.push(2, Message::WindowAckSize { ack_window_size: 100 });
    let frame = written(&mut a);
    let mut b = Chunk::new();
    feed(&mut b, &frame);
    assert!(matches!(b.poll(), Ok(None)));
    assert_eq!(b.get_write_buffer_length(), 0);
    feed(&mut b, &[0]);
    assert_eq!(written(&mut b), vec![0x42, 0, 0, 0, 0, 0, 4, 3, 0, 0, 0, 17]);
}

#[test]
fn peer_bandwidth_answers_with_window_ack_size() {
    let mut a = Chunk::new();
    a.push(2, Message::SetPeerBandwidth { ack_window_size: 5_000_000, limit_type: LimitType::Hard });
    let frame = written(&mut a);
    let mut b = Chunk::new();
    feed(&mut b, &frame);
    assert!(matches!(b.poll(), Ok(None)));
    assert_eq!(
        written(&mut b),
        vec![0x02, 0, 0, 0, 0, 0, 4, 5, 0, 0, 0, 0, 0x00, 0x4C, 0x4B, 0x40]
    );
}

#[test]
fn acknowledgement_after_a_tenth_of_the_window() {
    let mut c = Chunk::new();
    feed(&mut c, &vec![0u8; 250_000]);
    assert_eq!(c.get_write_buffer_length(), 0);
    feed(&mut c, &[0u8]);
    assert_eq!(c.get_bytes_in(), 250_001);
    assert_eq!(written(&mut c), vec![0x42, 0, 0, 0, 0, 0, 4, 3, 0x00, 0x03, 0xD0, 0x91]);
}

#[test]
fn poll_on_nothing_returns_nothing() {
    let mut c = Chunk::new();
    assert!(matches!(c.poll(), Ok(None)));
}

#[test]
fn poll_waits_for_a_whole_message_header() {
    let mut c = Chunk::new();
    feed(&mut c, &[0x04, 0, 0, 5, 0, 0]);
    assert!(matches!(c.poll(), Ok(None)));
    feed(&mut c, &[3, 8, 1, 0, 0, 0, 0xAF, 1, 2]);
    match c.poll() {
        Ok(Some(Message::Audio { delta: 0, control: 0xAF, payload })) => {
            assert_eq!(&payload[..], &[1, 2]);
        }
        other => panic!("unexpected {:?}", other),
    }
}

#[test]
fn video_message() {
    let mut c = Chunk::new();
    feed(&mut c, &[0x04, 0, 0, 0, 0, 0, 3, 9, 1, 0, 0, 0, 0x17, 0, 1]);
    match c.poll() {
        Ok(Some(Message::Video { control: 0x17, payload, .. })) => assert_eq!(&payload[..], &[0, 1]),
        other => panic!("unexpected {:?}", other),
    }
}

#[test]
fn message_over_two_chunks() {
    let mut c = Chunk::new();
    let payload: Vec<u8> = (0..200u32).map(|i| i as u8).collect();
    let mut first = vec![0x04, 0, 0, 0, 0, 0, 200, 0x30, 0, 0, 0, 0];
    first.extend_from_slice(&payload[..128]);
    feed(&mut c, &first);
    assert!(matches!(c.poll(), Ok(None)));
    let mut second = vec![0xC4];
    second.extend_from_slice(&payload[128..]);
    feed(&mut c, &second);
    match c.poll() {
        Ok(Some(Message::Unknown { id: 0x30, payload: p })) => assert_eq!(&p[..], &payload[..]),
        other => panic!("unexpected {:?}", other),
    }
}

#[test]
fn extended_delta_round_trip() {
    // open the stream, then a format 1 header with an extended delta
    let mut c = Chunk::new();
    feed(&mut c, &[0x04, 0, 0, 0, 0, 0, 1, 8, 0, 0, 0, 0, 0xAF]);
    assert!(matches!(c.poll(), Ok(Some(Message::Audio { .. }))));
    let h = Header {
        timestamp: 0x0100_0000,
        length: 2,
        type_id: 8,
        stream_id: 0,
        timestamp_delta: 0x0100_0005,
    };
    let mut w = BytesMut::new();
    h.write_chunk_message_header(&mut w, 1);
    let mut chunk = vec![0x44];
    chunk.extend_from_slice(&w);
    chunk.extend_from_slice(&[0xAF, 9]);
    feed(&mut c, &chunk);
    match c.poll() {
        Ok(Some(Message::Audio { delta: 0x0100_0005, control: 0xAF, payload })) => {
            assert_eq!(&payload[..], &[9])
        }
        other => panic!("unexpected {:?}", other),
    }
}

#[test]
fn zero_chunk_size_is_wrong_input() {
    let mut c = Chunk::new();
    feed(&mut c, &[0x02, 0, 0, 0, 0, 0, 4, 1, 0, 0, 0, 0, 0, 0, 0, 0]);
    assert!(matches!(c.poll(), Err(ChunkError::WrongInput)));
}

#[test]
fn continuation_of_unknown_stream_is_refused() {
    let mut c = Chunk::new();
    feed(&mut c, &[0x45, 0, 0, 0, 0, 0, 1, 8]);
    assert!(matches!(c.poll(), Err(ChunkError::UnknownChunkStream)));
}

#[test]
fn unknown_message_type() {
    let mut c = Chunk::new();
    feed(&mut c, &[0x04, 0, 0, 0, 0, 0, 2, 0x30, 0, 0, 0, 0, 9, 9]);
    match c.poll() {
        Ok(Some(Message::Unknown { id: 0x30, payload })) => assert_eq!(&payload[..], &[9, 9]),
        other => panic!("unexpected {:?}", other),
    }
}

#[test]
fn user_control_events() {
    let mut c = Chunk::new();
    feed(&mut c, &[0x02, 0, 0, 0, 0, 0, 6, 4, 0, 0, 0, 0, 0, 0, 0, 0, 0, 1]);
    assert!(matches!(
        c.poll(),
        Ok(Some(Message::UserControl(UserControlEvent::StreamBegin { stream_id: 1 })))
    ));
    feed(&mut c, &[0x02, 0, 0, 0, 0, 0, 10, 4, 0, 0, 0, 0, 0, 3, 0, 0, 0, 1, 0, 0, 1, 0]);
    assert!(matches!(
        c.poll(),
        Ok(Some(Message::UserControl(UserControlEvent::SetBufferLength { stream_id: 1, length: 256 })))
    ));
    feed(&mut c, &[0x02, 0, 0, 0, 0, 0, 4, 4, 0, 0, 0, 0, 0, 99, 5, 6]);
    match c.poll() {
        Ok(Some(Message::UserControl(UserControlEvent::Unknown { id: 99, payload }))) => {
            assert_eq!(&payload[..], &[5, 6])
        }
        other => panic!("unexpected {:?}", other),
    }
}

#[test]
fn ping_request_is_outside_the_defined_inputs() {
    let mut c = Chunk::new();
    feed(&mut c, &[0x02, 0, 0, 0, 0, 0, 6, 4, 0, 0, 0, 0, 0, 6, 0, 0, 0, 1]);
    assert!(c.try_poll().is_none());
}

#[test]
fn short_payload_is_outside_the_defined_inputs() {
    let mut c = Chunk::new();
    feed(&mut c, &[0x02, 0, 0, 0, 0, 0, 2, 5, 0, 0, 0, 0, 0, 1]);
    assert!(c.try_poll().is_none());
}

#[test]
fn command_message_decodes_amf0_values() {
    let mut c = Chunk::new();
    let mut body = amf_bytes(&connect_values());
    body.push(0xFF);
    let mut input = vec![0x03, 0, 0, 0, 0, 0, body.len() as u8, 0x14, 0, 0, 0, 0];
    input.extend_from_slice(&body);
    feed(&mut c, &input);
    match c.poll() {
        Ok(Some(Message::Command { payload })) => {
            assert_eq!(payload.len(), 2);
            assert_eq!(payload[0].try_as_str(), Some("connect"));
        }
        other => panic!("unexpected {:?}", other),
    }
}

#[test]
fn data_message_decodes_amf0_values() {
    let mut c = Chunk::new();
    let body = amf_bytes(&[amf::Value::Amf0(amf::amf0::Value::String("@setDataFrame".to_string()))]);
    let mut input = vec![0x03, 0, 0, 0, 0, 0, body.len() as u8, 0x12, 0, 0, 0, 0];
    input.extend_from_slice(&body);
    feed(&mut c, &input);
    match c.poll() {
        Ok(Some(Message::Data { payload })) => assert_eq!(payload.len(), 1),
        other => panic!("unexpected {:?}", other),
    }
}

#[test]
fn aggregate_message() {
    let mut c = Chunk::new();
    let body = vec![8, 0, 0, 2, 0, 0, 0, 9, 0, 0, 1, 0xAF, 7, 0, 0, 0, 13];
    let mut input = vec![0x04, 0, 0, 0, 0, 0, body.len() as u8, 0x16, 0, 0, 0, 0];
    input.extend_from_slice(&body);
    feed(&mut c, &input);
    match c.poll() {
        Ok(Some(Message::Aggregate(v))) => {
            assert_eq!(v.len(), 1);
            match &v[0] {
                Message::Audio { control: 0xAF, payload, .. } => assert_eq!(&payload[..], &[7]),
                other => panic!("unexpected {:?}", other),
            }
        }
        other => panic!("unexpected {:?}", other),
    }
}

#[test]
fn abort_drops_the_partial_payload() {
    let mut c = Chunk::new();
    let mut first = vec![0x04, 0, 0, 0, 0, 0, 200, 0x30, 0, 0, 0, 0];
    first.extend_from_slice(&[1u8; 128]);
    feed(&mut c, &first);
    assert!(matches!(c.poll(), Ok(None)));
    feed(&mut c, &[0x02, 0, 0, 0, 0, 0, 4, 2, 0, 0, 0, 0, 0, 0, 0, 4]);
    assert!(matches!(c.poll(), Ok(None)));
    // the 72 bytes that would have completed the message now leave it short
    let mut second = vec![0xC4];
    second.extend_from_slice(&[2u8; 72]);
    feed(&mut c, &second);
    assert!(matches!(c.poll(), Ok(None)));
}

#[test]
fn chunk_message_header_bytes() {
    let h = Header { timestamp: 5, length: 3, type_id: 8, stream_id: 1, timestamp_delta: 2 };
    let mut w = BytesMut::new();
    h.write_chunk_message_header(&mut w, 0);
    assert_eq!(&w[..], &[0, 0, 5, 0, 0, 3, 8, 0, 0, 0, 1]);
    let mut w = BytesMut::new();
    h.write_chunk_message_header(&mut w, 1);
    assert_eq!(&w[..], &[0, 0, 2, 0, 0, 3, 8]);
    let mut w = BytesMut::new();
    h.write_chunk_message_header(&mut w, 2);
    assert_eq!(&w[..], &[0, 0, 2]);
    let mut w = BytesMut::new();
    h.write_chunk_message_header(&mut w, 3);
    assert!(w.is_empty());
}

#[test]
fn chunk_message_header_extended_timestamp() {
    let h = Header { timestamp: 0x0102_0304, length: 3, type_id: 8, stream_id: 0, timestamp_delta: 2 };
    let mut w = BytesMut::new();
    h.write_chunk_message_header(&mut w, 0);
    assert_eq!(&w[..], &[0xFF, 0xFF, 0xFF, 0, 0, 3, 8, 0, 0, 0, 0, 1, 2, 3, 4]);
    let mut w = BytesMut::new();
    h.write_chunk_message_header(&mut w, 2);
    assert_eq!(&w[..], &[0xFF, 0xFF, 0xFF, 0, 0, 0, 2]);
}

#[test]
fn message_packet_starts_empty() {
    let h = Header { timestamp: 1, length: 10, type_id: 8, stream_id: 0, timestamp_delta: 0 };
    let p = MessagePacket::new(h);
    assert!(p.payload.is_empty());
    assert_eq!(p.header.length, 10);
}

#[test]
fn command_round_trip() {
    let mut a = Chunk::new();
    a.push(3, Message::Command { payload: connect_values() });
    let frame = written(&mut a);
    let mut b = Chunk::new();
    feed(&mut b, &frame);
    match b.poll() {
        Ok(Some(Message::Command { payload })) => {
            assert_eq!(payload.len(), 2);
            assert_eq!(payload[0].try_as_str(), Some("connect"));
            assert_eq!(payload[1].try_as_f64(), Some(1.0));
        }
        other => panic!("unexpected {:?}", other),
    }
}

#[test]
fn messages_are_read_in_order() {
    let mut a = Chunk::new();
    a.push(2, Message::SetChunkSize { chunk_size: 4096 });
    a.push(2, Message::SetChunkSize { chunk_size: 8192 });
    let frames = written(&mut a);
    let mut b = Chunk::new();
    feed(&mut b, &frames);
    assert!(matches!(b.poll(), Ok(Some(Message::SetChunkSize { chunk_size: 4096 }))));
    assert!(matches!(b.poll(), Ok(Some(Message::SetChunkSize { chunk_size: 8192 }))));
    assert!(matches!(b.poll(), Ok(None)));
}

/// Polls until the input is used up and returns the results other than
/// `Ok(None)`.
fn drain(c: &mut Chunk) -> Vec<Result<Option<Message>, ChunkError>> {
    let mut out = Vec::new();
    for _ in 0..64 {
        match c.poll() {
            Ok(None) => {}
            r => out.push(r),
        }
    }
    out
}

#[test]
fn default_chunk_size_reads_128_byte_chunks() {
    let mut c = Chunk::new();
    let mut input = vec![0x03, 0, 0, 0, 0, 0, 200, 0x30, 0, 0, 0, 0];
    input.extend_from_slice(&[0xAA; 128]);
    input.push(0xC3);
    input.extend_from_slice(&[0xAA; 72]);
    feed(&mut c, &input);
    let out = drain(&mut c);
    assert_eq!(out.len(), 1);
    match &out[0] {
        Ok(Some(Message::Unknown { id: 0x30, payload })) => assert_eq!(&payload[..], &[0xAA; 200][..]),
        other => panic!("unexpected {:?}", other),
    }
}

#[test]
fn long_command_is_cut_into_chunks() {
    let long = "x".repeat(300);
    let values = vec![
        amf::Value::Amf0(amf::amf0::Value::String("play".to_string())),
        amf::Value::Amf0(amf::amf0::Value::String(long.clone())),
    ];
    let cmd = amf_bytes(&values);
    assert!(cmd.len() > 256);
    let mut a = Chunk::new();
    a.push(3, Message::Command { payload: values });
    let frame = written(&mut a);
    let mut expected = vec![0x03, 0, 0, 0, 0, 1, (cmd.len() - 256) as u8, 0x14, 0, 0, 0, 0];
    expected.extend_from_slice(&cmd[..128]);
    expected.push(0xC3);
    expected.extend_from_slice(&cmd[128..256]);
    expected.push(0xC3);
    expected.extend_from_slice(&cmd[256..]);
    assert_eq!(frame, expected);
    let mut b = Chunk::new();
    feed(&mut b, &frame);
    let out = drain(&mut b);
    assert_eq!(out.len(), 1);
    match &out[0] {
        Ok(Some(Message::Command { payload })) => {
            assert_eq!(payload.len(), 2);
            assert_eq!(payload[0].try_as_str(), Some("play"));
            assert_eq!(payload[1].try_as_str(), Some(long.as_str()));
        }
        other => panic!("unexpected {:?}", other),
    }
}

#[test]
fn chunk_size_set_both_ways_carries_long_messages() {
    let mut a = Chunk::new();
    a.push(2, Message::SetChunkSize { chunk_size: 256 });
    let cmd: Vec<u8> = (0..300u32).map(|i| (i % 7) as u8 + 0x30).collect();
    a.push_command_bytes(3, &cmd);
    let frames = written(&mut a);
    // the command goes out in pieces of 256 and 44 bytes
    let mut expected = vec![0x02, 0, 0, 0, 0, 0, 4, 1, 0, 0, 0, 0, 0, 0, 1, 0];
    expected.extend_from_slice(&[0x03, 0, 0, 0, 0, 1, 44, 0x14, 0, 0, 0, 0]);
    expected.extend_from_slice(&cmd[..256]);
    expected.push(0xC3);
    expected.extend_from_slice(&cmd[256..]);
    assert_eq!(frames, expected);
    let mut b = Chunk::new();
    feed(&mut b, &frames);
    assert!(matches!(b.poll(), Ok(Some(Message::SetChunkSize { chunk_size: 256 }))));
    // the header and the first 256 bytes, then the last 44
    assert!(matches!(b.poll(), Ok(None)));
    assert!(matches!(b.poll(), Ok(Some(Message::Command { .. }))));
    assert!(matches!(b.poll(), Ok(None)));
}

#[test]
fn received_chunk_size_is_the_one_sent() {
    let mut c = Chunk::new();
    feed(&mut c, &[0x02, 0, 0, 0, 0, 0, 4, 1, 0, 0, 0, 0, 0, 0, 0, 10]);
    assert!(matches!(c.poll(), Ok(Some(Message::SetChunkSize { chunk_size: 10 }))));
    // a 15-byte message now comes in chunks of 10 and 5 bytes
    let mut input = vec![0x04, 0, 0, 0, 0, 0, 15, 0x30, 0, 0, 0, 0];
    input.extend_from_slice(&[1u8; 10]);
    input.push(0xC4);
    input.extend_from_slice(&[2u8; 5]);
    feed(&mut c, &input);
    assert!(matches!(c.poll(), Ok(None)));
    match c.poll() {
        Ok(Some(Message::Unknown { id: 0x30, payload })) => {
            assert_eq!(&payload[..10], &[1u8; 10]);
            assert_eq!(&payload[10..], &[2u8; 5]);
        }
        other => panic!("unexpected {:?}", other),
    }
}

#[test]
fn bytes_in_sums_the_buffered_bytes() {
    let mut c = Chunk::new();
    feed(&mut c, &[0x04, 0, 0, 0, 0, 0, 3, 9]);
    assert!(matches!(c.poll(), Ok(None)));
    c.push(2, Message::Ack { sequence_number: 1 });
    let _ = c.flush_write_buffer();
    feed(&mut c, &[1, 0, 0, 0, 0x17, 0, 1]);
    assert!(matches!(c.poll(), Ok(Some(Message::Video { .. }))));
    assert_eq!(c.get_bytes_in(), 15);
}

#[test]
fn three_byte_basic_header_reads_back_where_it_agrees() {
    // chunk stream 321 in format 0: the id bytes 0x01 0x01 read back as 321
    let mut a = Chunk::new();
    a.push_command_bytes(321, &[0x05]);
    let frame = written(&mut a);
    assert_eq!(&frame[..3], &[0x3F, 0x01, 0x01]);
    let mut b = Chunk::new();
    feed(&mut b, &frame);
    assert!(matches!(b.poll(), Ok(Some(Message::Command { .. }))));
    // a second message on stream 321 reads the same way
    feed(&mut b, &[0x3F, 0x01, 0x01, 0, 0, 0, 0, 0, 1, 0x14, 0, 0, 0, 0, 0x05]);
    assert!(matches!(b.poll(), Ok(Some(Message::Command { .. }))));
}
