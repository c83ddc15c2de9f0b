use optical_protocol::error::Error;
use optical_protocol::framer::Framer;

const MAX_FRAME: usize = 1 << 21;

fn scenario_handshake_bytes() -> Vec<u8> {
    vec![
        0x10, 0x00, 0xf0, 0x05, 0x09, b'l', b'o', b'c', b'a', b'l', b'h', b'o', b's', b't', 0x63,
        0xdd, 0x01,
    ]
}

#[test]
fn split_frame_emits_only_after_the_last_byte() {
    // The handshake delivered one byte per socket read.
    let bytes = scenario_handshake_bytes();
    let mut framer = Framer::new(MAX_FRAME);
    for (i, b) in bytes.iter().enumerate() {
        framer.push_bytes(&[*b]);
        if i + 1 < bytes.len() {
            assert_eq!(framer.next_frame().unwrap(), None);
        }
    }
    let frame = framer.next_frame().unwrap().unwrap();
    assert_eq!(frame.bytes, bytes);
    assert_eq!(framer.next_frame().unwrap(), None);
    assert!(framer.finish().is_ok());
}

#[test]
fn frames_are_emitted_in_order_whatever_the_chunking() {
    // Three frames: the handshake, a StatusRequest, a PingRequest.
    let f1 = scenario_handshake_bytes();
    let f2 = vec![0x01, 0x00];
    let f3 = vec![0x09, 0x01, 0x00, 0x00, 0x00, 0x00, 0x00, 0x00, 0x00, 0x2a];
    let mut stream: Vec<u8> = Vec::new();
    stream.extend_from_slice(&f1);
    stream.extend_from_slice(&f2);
    stream.extend_from_slice(&f3);

    for chunk_size in [1usize, 2, 3, 7, stream.len()] {
        let mut framer = Framer::new(MAX_FRAME);
        let mut emitted: Vec<Vec<u8>> = Vec::new();
        for chunk in stream.chunks(chunk_size) {
            framer.push_bytes(chunk);
            while let Some(frame) = framer.next_frame().unwrap() {
                emitted.push(frame.bytes);
            }
        }
        assert_eq!(emitted, vec![f1.clone(), f2.clone(), f3.clone()]);
        assert!(framer.finish().is_ok());
    }
}

#[test]
fn malformed_length_fails_after_the_fifth_byte() {
    // Bytes ff ff ff ff ff ff arrive one at a time.
    let mut framer = Framer::new(MAX_FRAME);
    for _ in 0..4 {
        framer.push_bytes(&[0xff]);
        assert_eq!(framer.next_frame().unwrap(), None);
    }
    framer.push_bytes(&[0xff]);
    assert_eq!(framer.next_frame(), Err(Error::MalformedVarInt));
    framer.push_bytes(&[0xff]);
    assert_eq!(framer.next_frame(), Err(Error::MalformedVarInt));
}

#[test]
fn eof_mid_frame_is_an_error_and_no_frame_is_emitted() {
    // A frame declaring five body bytes, followed by only two.
    let mut framer = Framer::new(MAX_FRAME);
    framer.push_bytes(&[0x05, 0x00, 0x01]);
    assert_eq!(framer.next_frame().unwrap(), None);
    assert_eq!(framer.finish(), Err(Error::EofMidFrame));
}

#[test]
fn eof_on_fresh_empty_buffer_is_orderly() {
    let framer = Framer::new(MAX_FRAME);
    assert!(framer.finish().is_ok());
}

#[test]
fn zero_length_frame_is_never_emitted() {
    let mut framer = Framer::new(MAX_FRAME);
    framer.push_bytes(&[0x00, 0x00, 0x00]);
    assert_eq!(framer.next_frame().unwrap(), None);
}

#[test]
fn frame_above_the_configured_maximum_is_rejected() {
    let mut framer = Framer::new(16);
    // Declared length 17.
    framer.push_bytes(&[0x11]);
    assert_eq!(framer.next_frame(), Err(Error::FrameTooLarge));
}

#[test]
fn negative_declared_length_is_malformed() {
    let mut framer = Framer::new(MAX_FRAME);
    framer.push_bytes(&[0xff, 0xff, 0xff, 0xff, 0x0f]);
    assert_eq!(framer.next_frame(), Err(Error::MalformedVarInt));
}

#[test]
fn remainder_stays_buffered_for_the_next_frame() {
    let mut framer = Framer::new(MAX_FRAME);
    // One complete frame plus the first byte of the next.
    framer.push_bytes(&[0x01, 0x00, 0x09]);
    let frame = framer.next_frame().unwrap().unwrap();
    assert_eq!(frame.bytes, vec![0x01, 0x00]);
    assert_eq!(framer.next_frame().unwrap(), None);
    assert_eq!(framer.finish(), Err(Error::EofMidFrame));
}
