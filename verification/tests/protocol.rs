use talkers::{Event, TalkError, Talker, Transport};

fn engine() -> Talker {
    Talker::new(Transport::new())
}

/// Moves everything one engine has written into the other's read buffer.
fn shuttle(from: &mut Talker, to: &mut Talker) {
    let bytes = from.take_outgoing();
    to.feed(&bytes);
}

const SHA_EMPTY: [u8; 32] = [
    0xe3, 0xb0, 0xc4, 0x42, 0x98, 0xfc, 0x1c, 0x14, 0x9a, 0xfb, 0xf4, 0xc8, 0x99, 0x6f, 0xb9,
    0x24, 0x27, 0xae, 0x41, 0xe4, 0x64, 0x9b, 0x93, 0x4c, 0xa4, 0x95, 0x99, 0x1b, 0x78, 0x52,
    0xb8, 0x55,
];

const SHA_HI: [u8; 32] = [
    0x8f, 0x43, 0x43, 0x46, 0x64, 0x8f, 0x6b, 0x96, 0xdf, 0x89, 0xdd, 0xa9, 0x01, 0xc5, 0x17,
    0x6b, 0x10, 0xa6, 0xd8, 0x39, 0x61, 0xdd, 0x3c, 0x1a, 0xc8, 0x8b, 0x59, 0xb2, 0xdc, 0x32,
    0x7a, 0xa4,
];

const SHA_X: [u8; 32] = [
    0x2d, 0x71, 0x16, 0x42, 0xb7, 0x26, 0xb0, 0x44, 0x01, 0x62, 0x7c, 0xa9, 0xfb, 0xac, 0x32,
    0xf5, 0xc8, 0x53, 0x0f, 0xb1, 0x90, 0x3c, 0xc4, 0xdb, 0x02, 0x25, 0x87, 0x17, 0x92, 0x1a,
    0x48, 0x81,
];

const SHA_010203: [u8; 32] = [
    0x03, 0x90, 0x58, 0xc6, 0xf2, 0xc0, 0xcb, 0x49, 0x2c, 0x53, 0x3b, 0x0a, 0x4d, 0x14, 0xef,
    0x77, 0xcc, 0x0f, 0x78, 0xab, 0xcc, 0xce, 0xd5, 0x28, 0x7d, 0x84, 0xa1, 0xa2, 0x01, 0x1c,
    0xfb, 0x81,
];

#[test]
fn handshake_symmetry_both_orders() {
    let mut a = engine();
    let mut b = engine();
    // a initiated: a sends first then expects; b expects first then sends
    assert!(a.perform_handshake().is_ok());
    shuttle(&mut a, &mut b);
    assert!(b.expect_handshake().is_ok());
    assert!(b.perform_handshake().is_ok());
    shuttle(&mut b, &mut a);
    assert!(a.expect_handshake().is_ok());
}

#[test]
fn bad_handshake_is_protocol_error() {
    let mut b = engine();
    b.feed(&b"HELLO!!!".to_vec());
    assert_eq!(b.expect_handshake(), Err(TalkError::Protocol));
}

#[test]
fn short_handshake_is_io_error() {
    let mut b = engine();
    b.feed(&b"/talk".to_vec());
    assert_eq!(b.expect_handshake(), Err(TalkError::Io));
}

#[test]
fn hello_wire_bytes_and_roundtrip() {
    let mut a = engine();
    let mut b = engine();
    assert!(a.send("hi").is_ok());
    let wire = a.take_outgoing();
    assert_eq!(wire, vec![0x21, 0x32, 0x0a, b'h', b'i']);
    b.feed(&wire);
    assert_eq!(b.read_once(), Ok(true));
    let evs = b.take_events();
    assert_eq!(evs, vec![Event::MsgNew(String::from("hi"))]);
    let ack = b.take_outgoing();
    let mut expected_ack = vec![0x3d];
    expected_ack.extend_from_slice(&SHA_HI);
    assert_eq!(ack, expected_ack);
    a.feed(&ack);
    assert!(a.expect_hash().is_ok());
    let evs = a.take_events();
    assert_eq!(
        evs,
        vec![
            Event::HashOfSent(SHA_HI.to_vec()),
            Event::HashRcvd(SHA_HI.to_vec()),
        ]
    );
}

#[test]
fn empty_message_roundtrip() {
    let mut a = engine();
    let mut b = engine();
    assert!(a.send("").is_ok());
    let wire = a.take_outgoing();
    assert_eq!(wire, vec![0x21, 0x30, 0x0a]);
    b.feed(&wire);
    assert_eq!(b.read_once(), Ok(true));
    assert_eq!(b.take_events(), vec![Event::MsgNew(String::new())]);
    let mut expected_ack = vec![0x3d];
    expected_ack.extend_from_slice(&SHA_EMPTY);
    assert_eq!(b.take_outgoing(), expected_ack);
}

#[test]
fn invalid_utf8_is_lossily_decoded() {
    let mut b = engine();
    b.feed(&vec![0x21, 0x31, 0x0a, 0xff]);
    assert_eq!(b.read_once(), Ok(true));
    assert_eq!(b.take_events(), vec![Event::MsgNew(String::from("\u{fffd}"))]);
}

#[test]
fn file_transfer_roundtrip() {
    let mut a = engine();
    let mut b = engine();
    b.set_file_incoming_limit(Some(u64::MAX));
    let data = vec![1u8, 2, 3];
    assert!(a.send_stream(&data, 3).is_ok());
    let wire = a.take_outgoing();
    // header, payload, then the sender's hash trailer
    let mut expected = vec![0x23, 0x33, 0x0a, 1, 2, 3, 0x3d];
    expected.extend_from_slice(&SHA_010203);
    assert_eq!(wire, expected);
    b.feed(&wire);
    assert_eq!(b.read_once(), Ok(true));
    let evs = b.take_events();
    assert_eq!(evs.len(), 3);
    match &evs[0] {
        Event::FileComplete { name, data: d } => {
            assert!(name.starts_with(b"transfer_"));
            assert_eq!(d, &vec![1u8, 2, 3]);
        }
        other => panic!("expected FileComplete, got {:?}", other),
    }
    match &evs[1] {
        Event::FileHashByPeer { digest, .. } => assert_eq!(digest, &SHA_010203.to_vec()),
        other => panic!("expected FileHashByPeer, got {:?}", other),
    }
    match &evs[2] {
        Event::FileOurHash { digest, .. } => assert_eq!(digest, &SHA_010203.to_vec()),
        other => panic!("expected FileOurHash, got {:?}", other),
    }
    // the receiver acknowledges with its own digest of the file
    let ack = b.take_outgoing();
    let mut expected_ack = vec![0x3d];
    expected_ack.extend_from_slice(&SHA_010203);
    assert_eq!(ack, expected_ack);
    a.feed(&ack);
    assert!(a.expect_hash().is_ok());
    assert_eq!(
        a.take_events(),
        vec![
            Event::HashOfSent(SHA_010203.to_vec()),
            Event::HashRcvd(SHA_010203.to_vec()),
        ]
    );
}

#[test]
fn rejected_file_is_not_drained() {
    let mut a = engine();
    let mut b = engine();
    // file transfers are rejected by default
    let data = vec![9u8, 8, 7];
    assert!(a.send_stream(&data, 3).is_ok());
    shuttle(&mut a, &mut b);
    assert_eq!(b.read_once(), Ok(true));
    // no file events fire; the engine still answers with an empty-input hash
    assert_eq!(b.take_events(), Vec::<Event>::new());
    let mut expected_ack = vec![0x3d];
    expected_ack.extend_from_slice(&SHA_EMPTY);
    assert_eq!(b.take_outgoing(), expected_ack);
    // the payload was left on the stream: its first byte is read as an
    // instruction next
    assert_eq!(b.read_once(), Ok(false));
    assert_eq!(b.take_events(), vec![Event::InvalidInstr(9)]);
}

#[test]
fn oversize_message_fires_payload_too_large() {
    let mut b = engine();
    let mut wire = vec![0x21];
    wire.extend_from_slice(b"1048577\n");
    wire.extend_from_slice(&vec![b'A'; 1048577]);
    b.feed(&wire);
    assert_eq!(b.read_once(), Ok(true));
    assert_eq!(b.take_events(), vec![Event::PayloadTooLarge(1048577)]);
    // still answers with an empty-input hash frame
    let mut expected_ack = vec![0x3d];
    expected_ack.extend_from_slice(&SHA_EMPTY);
    assert_eq!(b.take_outgoing(), expected_ack);
    // the payload is not drained: its first byte comes up as an instruction
    assert_eq!(b.read_once(), Ok(false));
    assert_eq!(b.take_events(), vec![Event::InvalidInstr(b'A')]);
}

#[test]
fn largest_allowed_message_is_delivered() {
    let mut b = engine();
    let text = "B".repeat(1048576);
    let mut wire = vec![0x21];
    wire.extend_from_slice(b"1048576\n");
    wire.extend_from_slice(text.as_bytes());
    b.feed(&wire);
    assert_eq!(b.read_once(), Ok(true));
    assert_eq!(b.take_events(), vec![Event::MsgNew(text)]);
}

#[test]
fn interleaved_inbound_queues_one_byte() {
    let mut a = engine();
    let mut b = engine();
    assert!(a.send("x").is_ok());
    let to_b = a.take_outgoing();
    // before acking, b sends a message of its own
    assert!(b.send("y").is_ok());
    let to_a = b.take_outgoing();
    a.feed(&to_a);
    // a expected a hash but got b's message frame: the byte is queued
    assert_eq!(a.expect_hash(), Err(TalkError::NoHash));
    // the queued instruction byte drives the next read
    assert_eq!(a.read_once(), Ok(true));
    let evs = a.take_events();
    assert_eq!(evs[0], Event::HashOfSent(SHA_X.to_vec()));
    assert_eq!(evs[1], Event::MsgNew(String::from("y")));
    // now b processes a's message and acks it
    b.feed(&to_b);
    assert_eq!(b.read_once(), Ok(true));
    let _ = a.take_outgoing();
    shuttle(&mut b, &mut a);
    assert!(a.expect_hash().is_ok());
    assert_eq!(a.take_events(), vec![Event::HashRcvd(SHA_X.to_vec())]);
}

#[test]
fn close_is_idempotent() {
    let mut a = engine();
    assert!(a.close().is_ok());
    assert_eq!(a.take_events(), vec![Event::ChatClose]);
    assert!(a.close().is_ok());
    assert_eq!(a.take_events(), Vec::<Event>::new());
    assert_eq!(a.send("nope"), Err(TalkError::Io));
}

#[test]
fn length_parser_cap_aborts_without_consuming_payload() {
    let mut b = engine();
    let mut wire = vec![0x21];
    wire.extend_from_slice(b"12345678901234567");
    b.feed(&wire);
    assert_eq!(b.read_once(), Ok(true));
    // no message event; the scan aborted after 16 digits
    assert_eq!(b.take_events(), Vec::<Event>::new());
    let mut expected_ack = vec![0x3d];
    expected_ack.extend_from_slice(&SHA_EMPTY);
    assert_eq!(b.take_outgoing(), expected_ack);
    // the 17th digit is still in the stream
    assert_eq!(b.read_once(), Ok(false));
    assert_eq!(b.take_events(), vec![Event::InvalidInstr(b'7')]);
}

#[test]
fn fifteen_digit_length_is_accepted() {
    // 15 digits plus the terminator stay within the 16-byte cap; the read
    // then fails on the missing payload but the frame header is consumed
    let mut b = engine();
    let mut wire = vec![0x21];
    wire.extend_from_slice(b"100000000000000\n");
    b.feed(&wire);
    assert_eq!(b.read_once(), Ok(true));
    assert_eq!(b.take_events(), vec![Event::PayloadTooLarge(100000000000000)]);
}

#[test]
fn read_maybe_returns_false_when_idle() {
    let mut a = engine();
    assert_eq!(a.read_maybe(), Ok(false));
    assert_eq!(a.read_once(), Ok(false));
}

#[test]
fn eof_surfaces_not_connected() {
    let mut a = engine();
    a.set_peer_eof();
    assert_eq!(a.read_once(), Err(TalkError::NotConnected));
    assert_eq!(a.read_maybe(), Err(TalkError::NotConnected));
}

#[test]
fn unknown_instruction_fires_invalid_instr() {
    let mut a = engine();
    a.feed(&vec![0x7fu8]);
    assert_eq!(a.read_once(), Ok(false));
    assert_eq!(a.take_events(), vec![Event::InvalidInstr(0x7f)]);
}

#[test]
fn expect_hash_partial_frame_is_pending_then_ok() {
    let mut a = engine();
    a.feed(&vec![0x3d, 1, 2, 3]);
    // the frame is incomplete and the peer may still send: nothing consumed
    assert_eq!(a.expect_hash(), Err(TalkError::Pending));
    let mut rest = vec![0u8; 29];
    rest.extend_from_slice(&[7, 8, 9]);
    a.feed(&rest);
    assert!(a.expect_hash().is_ok());
    let mut digest = vec![1u8, 2, 3];
    digest.extend_from_slice(&vec![0u8; 29]);
    assert_eq!(a.take_events(), vec![Event::HashRcvd(digest)]);
}

#[test]
fn expect_hash_truncated_by_eof_is_io_error() {
    let mut a = engine();
    a.feed(&vec![0x3d, 1, 2, 3]);
    a.set_peer_eof();
    assert_eq!(a.expect_hash(), Err(TalkError::Io));
}

#[test]
fn expect_hash_with_nothing_buffered() {
    let mut a = engine();
    assert_eq!(a.expect_hash(), Err(TalkError::Pending));
    a.set_peer_eof();
    assert_eq!(a.expect_hash(), Err(TalkError::NotConnected));
}

#[test]
fn split_message_frame_is_reassembled() {
    let mut b = engine();
    // the frame arrives in three pieces; nothing is consumed until it is whole
    b.feed(&vec![0x21, 0x35]);
    assert_eq!(b.read_once(), Ok(false));
    b.feed(&vec![0x0a, b'a', b'b']);
    assert_eq!(b.read_once(), Ok(false));
    assert_eq!(b.take_events(), Vec::<Event>::new());
    assert_eq!(b.take_outgoing(), Vec::<u8>::new());
    b.feed(&b"cde".to_vec());
    assert_eq!(b.read_once(), Ok(true));
    assert_eq!(b.take_events(), vec![Event::MsgNew(String::from("abcde"))]);
}

#[test]
fn truncated_message_at_eof_is_io_error() {
    let mut b = engine();
    b.feed(&vec![0x21, 0x35, 0x0a, b'a', b'b']);
    b.set_peer_eof();
    // the peer is gone mid-frame: the failed payload read propagates
    assert_eq!(b.read_once(), Err(TalkError::Io));
    assert_eq!(b.take_events(), Vec::<Event>::new());
    assert_eq!(b.take_outgoing(), Vec::<u8>::new());
}

#[test]
fn file_limit_decides_by_announced_size() {
    let mut a = engine();
    let mut b = engine();
    b.set_file_incoming_limit(Some(2));
    // 3 announced octets exceed the bound: rejected, empty-input hash back
    assert!(a.send_stream(&vec![1u8, 2, 3], 3).is_ok());
    shuttle(&mut a, &mut b);
    assert_eq!(b.read_once(), Ok(true));
    assert_eq!(b.take_events(), Vec::<Event>::new());
    // 2 announced octets are within the bound: accepted
    let mut c = engine();
    let mut d = engine();
    d.set_file_incoming_limit(Some(2));
    assert!(c.send_stream(&vec![4u8, 5], 2).is_ok());
    shuttle(&mut c, &mut d);
    assert_eq!(d.read_once(), Ok(true));
    let evs = d.take_events();
    assert!(matches!(&evs[0], Event::FileComplete { data, .. } if data == &vec![4u8, 5]));
}

#[test]
fn send_stream_len_is_callers_claim() {
    // a mismatching announced length goes out as announced
    let mut a = engine();
    assert!(a.send_stream(&vec![5u8], 7).is_ok());
    let wire = a.take_outgoing();
    assert_eq!(&wire[..3], &[0x23, 0x37, 0x0a]);
    assert_eq!(wire[3], 5);
}
