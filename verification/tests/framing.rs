use framegate::frame::{encode_frame, recv_step, FrameBuffer, FrameError, ReadInput, RecvOutcome};

fn feed(fb: &mut FrameBuffer, bytes: &[u8]) -> RecvOutcome {
    recv_step(fb, ReadInput::Chunk(bytes.to_vec()))
}

#[test]
fn encode_frame_exact_bytes() {
    let frame = encode_frame(&[0xAB]);
    assert_eq!(frame, vec![0, 0, 0, 0, 0, 0, 0, 9, 0xAB]);
}

#[test]
fn round_trip_with_codec() {
    let message = (String::from("hello"), 42u64);
    let raw = bincode::serialize(&message).unwrap();
    let frame = encode_frame(&raw);

    let mut fb = FrameBuffer::new(16);
    fb.append(&frame);
    match fb.try_extract_frame() {
        Ok(Some(payload)) => {
            assert_eq!(payload, raw);
            let back: (String, u64) = bincode::deserialize(&payload).unwrap();
            assert_eq!(back, message);
        },
        other => panic!("expected a complete frame, got {:?}", other),
    }
    assert!(matches!(fb.try_extract_frame(), Ok(None)));
}

#[test]
fn partial_delivery_one_byte_at_a_time() {
    let raw = bincode::serialize(&String::from("piecewise")).unwrap();
    let frame = encode_frame(&raw);

    let mut fb = FrameBuffer::new(16);
    for &b in &frame[..frame.len() - 1] {
        match feed(&mut fb, &[b]) {
            RecvOutcome::Pending => {},
            other => panic!("premature outcome {:?}", other),
        }
    }
    match feed(&mut fb, &[frame[frame.len() - 1]]) {
        RecvOutcome::Frame(payload) => assert_eq!(payload, raw),
        other => panic!("expected the frame on the last byte, got {:?}", other),
    }
    assert!(matches!(recv_step(&mut fb, ReadInput::WouldBlock), RecvOutcome::Pending));
}

#[test]
fn chunked_delivery_uneven_split() {
    let raw = bincode::serialize(&vec![7u16, 8, 9]).unwrap();
    let frame = encode_frame(&raw);

    let mut fb = FrameBuffer::new(16);
    let cut = 3.min(frame.len() - 1);
    assert!(matches!(feed(&mut fb, &frame[..cut]), RecvOutcome::Pending));
    match feed(&mut fb, &frame[cut..]) {
        RecvOutcome::Frame(payload) => assert_eq!(payload, raw),
        other => panic!("expected the frame after the second chunk, got {:?}", other),
    }
}

#[test]
fn buffer_growth_past_initial_capacity() {
    let payload: Vec<u8> = (0..10_000u32).map(|i| (i % 251) as u8).collect();
    let frame = encode_frame(&payload);

    let mut fb = FrameBuffer::new(16);
    fb.append(&frame);
    match fb.try_extract_frame() {
        Ok(Some(got)) => assert_eq!(got, payload),
        other => panic!("expected the large frame, got {:?}", other),
    }
    assert_eq!(fb.buffered_len(), 0);
}

#[test]
fn two_frames_in_one_read() {
    let raw1 = bincode::serialize(&1234u32).unwrap();
    let raw2 = bincode::serialize(&String::from("second")).unwrap();
    let mut both = encode_frame(&raw1);
    both.extend_from_slice(&encode_frame(&raw2));

    let mut fb = FrameBuffer::new(16);
    match feed(&mut fb, &both) {
        RecvOutcome::Frame(p) => assert_eq!(p, raw1),
        other => panic!("expected the first frame, got {:?}", other),
    }
    match recv_step(&mut fb, ReadInput::WouldBlock) {
        RecvOutcome::Frame(p) => assert_eq!(p, raw2),
        other => panic!("expected the second frame, got {:?}", other),
    }
    assert!(matches!(recv_step(&mut fb, ReadInput::WouldBlock), RecvOutcome::Pending));
}

#[test]
fn peer_closed_distinct_from_pending() {
    let mut fb = FrameBuffer::new(16);
    assert!(matches!(recv_step(&mut fb, ReadInput::WouldBlock), RecvOutcome::Pending));
    let closed = recv_step(&mut fb, ReadInput::Closed);
    assert!(matches!(closed, RecvOutcome::PeerClosed));
    assert_ne!(closed, RecvOutcome::Pending);
    assert_ne!(closed, RecvOutcome::Malformed);
}

#[test]
fn close_delivers_buffered_frames() {
    let raw1 = bincode::serialize(&10u8).unwrap();
    let raw2 = bincode::serialize(&20u8).unwrap();
    let mut both = encode_frame(&raw1);
    both.extend_from_slice(&encode_frame(&raw2));

    let mut fb = FrameBuffer::new(16);
    match feed(&mut fb, &both) {
        RecvOutcome::Frame(p) => assert_eq!(p, raw1),
        other => panic!("expected the first frame, got {:?}", other),
    }
    // The peer closed, but the second frame is already whole in the buffer:
    // it is still delivered, and only then is the close reported.
    match recv_step(&mut fb, ReadInput::Closed) {
        RecvOutcome::Frame(p) => assert_eq!(p, raw2),
        other => panic!("expected the buffered frame on close, got {:?}", other),
    }
    assert!(matches!(recv_step(&mut fb, ReadInput::Closed), RecvOutcome::PeerClosed));
}

#[test]
fn malformed_length_prefix() {
    let mut fb = FrameBuffer::new(16);
    fb.append(&[0u8; 8]);
    assert!(matches!(fb.try_extract_frame(), Err(FrameError::BadLength)));

    let mut fb2 = FrameBuffer::new(16);
    assert!(matches!(feed(&mut fb2, &[0u8; 12]), RecvOutcome::Malformed));
}

#[test]
fn header_shorter_than_eight_bytes_is_pending() {
    let mut fb = FrameBuffer::new(16);
    fb.append(&[0, 0, 0]);
    assert!(matches!(fb.try_extract_frame(), Ok(None)));
    assert_eq!(fb.buffered_len(), 3);
}
