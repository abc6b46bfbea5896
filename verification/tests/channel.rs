use arpchat::arp::{build_frame, parse_frame};
use arpchat::channel::{chunk_bytes, Channel};
use arpchat::error::NetError;
use arpchat::ether_type::EtherType;
use arpchat::ktp::Packet;

fn test_channel() -> Channel {
    Channel::new(vec![2, 0, 0, 0, 0, 1], EtherType::default())
}

fn long_name(len: usize) -> String {
    let mut s = String::new();
    let mut i = 0;
    while i < len {
        s.push('x');
        i += 1;
    }
    s
}

#[test]
fn chunking_reproduces_body() {
    let mut body: Vec<u8> = Vec::new();
    for i in 0..1000usize {
        body.push((i % 251) as u8);
    }
    let chunks = chunk_bytes(&body);
    assert_eq!(chunks.len(), 5); // 1000 bytes in pieces of 241
    let mut glued: Vec<u8> = Vec::new();
    for c in &chunks {
        assert!(c.len() <= 241);
        glued.extend_from_slice(c);
    }
    assert_eq!(glued, body);
}

#[test]
fn chunking_empty_body_is_one_empty_chunk() {
    let chunks = chunk_bytes(&[]);
    assert_eq!(chunks.len(), 1);
    assert!(chunks[0].is_empty());
}

#[test]
fn frame_build_parse_round_trip() {
    let mac = [2u8, 0, 0, 0, 0, 1];
    let chunk: Vec<u8> = (0u8..100).collect();
    let frame = build_frame(EtherType::IPv4, &mac, 2, 1, 3, 77, &chunk);
    let fragment = parse_frame(&frame).expect("own frame must parse");
    assert_eq!(fragment.tag, 2);
    assert_eq!(fragment.seq_no, 1);
    assert_eq!(fragment.total, 3);
    assert_eq!(fragment.id, 77);
    assert_eq!(fragment.chunk, chunk);
}

#[test]
fn frame_carries_discriminator_in_protocol_type_field() {
    let mac = [2u8, 0, 0, 0, 0, 1];
    let frame = build_frame(EtherType::Experimental2, &mac, 0, 0, 0, 1, &[]);
    // 14 bytes of Ethernet header, 2 bytes of hardware type, then the
    // repurposed protocol-type field.
    assert_eq!(&frame[16..18], &[0x88, 0xB6]);
    let frame = build_frame(EtherType::IPv4, &mac, 0, 0, 0, 1, &[]);
    assert_eq!(&frame[16..18], &[0x08, 0x00]);
}

#[test]
fn foreign_frames_are_ignored() {
    let mut channel = test_channel();
    // Too short for an Ethernet header.
    assert!(channel.accept_frame(&[0u8; 10]).is_none());
    // Not the expected Ethernet type.
    let mut frame = vec![0xffu8; 6];
    frame.extend_from_slice(&[2, 0, 0, 0, 0, 1]);
    frame.extend_from_slice(&[0x08, 0x00]); // plain traffic, not a request
    frame.extend_from_slice(&[0u8; 40]);
    assert!(channel.accept_frame(&frame).is_none());
    // A genuine request without the magic prefix.
    let mut frame = vec![0xffu8; 6];
    frame.extend_from_slice(&[2, 0, 0, 0, 0, 1]);
    frame.extend_from_slice(&[0x08, 0x06]);
    frame.extend_from_slice(&[0x00, 0x01, 0x08, 0x00, 6, 4, 0x00, 0x01]);
    frame.extend_from_slice(&[2, 0, 0, 0, 0, 1]);
    frame.extend_from_slice(&[10, 0, 0, 1]);
    frame.extend_from_slice(&[0u8; 6]);
    frame.extend_from_slice(&[10, 0, 0, 2]);
    assert!(channel.accept_frame(&frame).is_none());
}

#[test]
fn send_and_receive_single_fragment() {
    let sender = test_channel();
    let mut receiver = test_channel();
    let packet = Packet::Message { id: 9, message_text: String::from("hello") };
    let frames = sender.prepare_send(&packet, 1234).expect("short message fits");
    assert_eq!(frames.len(), 1);
    let mut delivered = Vec::new();
    for frame in &frames {
        if let Some(p) = receiver.accept_frame(frame) {
            delivered.push(p);
        }
    }
    assert_eq!(delivered, vec![packet]);
}

#[test]
fn reassembly_handles_any_arrival_order() {
    let sender = test_channel();
    let packet = Packet::PresenceInformation {
        id: 5,
        is_join: false,
        username: long_name(600),
    };
    let frames = sender.prepare_send(&packet, 42).expect("600 bytes fit");
    assert!(frames.len() >= 3);

    // Ascending order.
    let mut receiver = test_channel();
    let mut got = Vec::new();
    for frame in &frames {
        if let Some(p) = receiver.accept_frame(frame) {
            got.push(p);
        }
    }
    assert_eq!(got, vec![packet.clone()]);

    // Descending order.
    let mut receiver = test_channel();
    let mut got = Vec::new();
    for frame in frames.iter().rev() {
        if let Some(p) = receiver.accept_frame(frame) {
            got.push(p);
        }
    }
    assert_eq!(got, vec![packet.clone()]);

    // An interleaved order.
    let mut order: Vec<usize> = (0..frames.len()).step_by(2).collect();
    order.extend((1..frames.len()).step_by(2));
    let mut receiver = test_channel();
    let mut got = Vec::new();
    for &i in &order {
        if let Some(p) = receiver.accept_frame(&frames[i]) {
            got.push(p);
        }
    }
    assert_eq!(got, vec![packet]);
}

#[test]
fn oversize_packet_is_rejected_with_no_frames() {
    let sender = test_channel();
    // Body of 9 + 70000 bytes needs more than 256 fragments.
    let packet = Packet::PresenceInformation {
        id: 1,
        is_join: false,
        username: long_name(70000),
    };
    match sender.prepare_send(&packet, 7) {
        Err(NetError::MessageTooLong) => {}
        Ok(frames) => panic!("oversize packet produced {} frames", frames.len()),
        Err(other) => panic!("unexpected error: {:?}", other),
    }
}

#[test]
fn largest_sendable_packet_still_goes_out() {
    let sender = test_channel();
    // 9 + 61687 = 61696 = 256 * 241 bytes: exactly 256 fragments.
    let packet = Packet::PresenceInformation {
        id: 1,
        is_join: false,
        username: long_name(61687),
    };
    let frames = sender.prepare_send(&packet, 7).expect("exactly 256 fragments fit");
    assert_eq!(frames.len(), 256);
    let packet = Packet::PresenceInformation {
        id: 1,
        is_join: false,
        username: long_name(61688),
    };
    assert!(matches!(sender.prepare_send(&packet, 7), Err(NetError::MessageTooLong)));
}

#[test]
fn duplicate_fragment_set_is_delivered_once() {
    let sender = test_channel();
    let mut receiver = test_channel();
    let packet = Packet::Message { id: 3, message_text: String::from("once only") };
    let frames = sender.prepare_send(&packet, 99).expect("short message fits");
    let mut delivered = 0;
    for _ in 0..2 {
        for frame in &frames {
            if receiver.accept_frame(frame).is_some() {
                delivered += 1;
            }
        }
    }
    assert_eq!(delivered, 1);
}

#[test]
fn dedup_memory_is_bounded_and_evicts_oldest_first() {
    let sender = test_channel();
    let mut receiver = test_channel();
    let packet = Packet::PresenceBroadcastRequest;
    let first = sender.prepare_send(&packet, 1000).expect("empty body fits");
    for frame in &first {
        assert!(receiver.accept_frame(frame).is_some());
    }
    // Replayed immediately: remembered, dropped.
    for frame in &first {
        assert!(receiver.accept_frame(frame).is_none());
    }
    // Sixteen further ids push the first one out.
    for k in 0..16u64 {
        let frames = sender.prepare_send(&packet, 2000 + k).expect("empty body fits");
        for frame in &frames {
            assert!(receiver.accept_frame(frame).is_some());
        }
    }
    // The oldest id was evicted, so its replay is delivered again.
    for frame in &first {
        assert!(receiver.accept_frame(frame).is_some());
    }
}

#[test]
fn duplicate_fragment_within_set_is_ignored() {
    let sender = test_channel();
    let mut receiver = test_channel();
    let packet = Packet::PresenceInformation {
        id: 5,
        is_join: true,
        username: long_name(300),
    };
    let frames = sender.prepare_send(&packet, 5).expect("300 bytes fit");
    assert!(frames.len() >= 2);
    // Repeat the first fragment before completing the set.
    assert!(receiver.accept_frame(&frames[0]).is_none());
    assert!(receiver.accept_frame(&frames[0]).is_none());
    let mut got = Vec::new();
    for frame in &frames[1..] {
        if let Some(p) = receiver.accept_frame(frame) {
            got.push(p);
        }
    }
    assert_eq!(got, vec![packet]);
}

#[test]
fn exact_frame_layout() {
    let mac = [0x02u8, 0x11, 0x22, 0x33, 0x44, 0x55];
    let frame = build_frame(EtherType::Experimental1, &mac, 1, 0, 0, 0x0102030405060708, &[0xAA]);
    let mut expected: Vec<u8> = Vec::new();
    expected.extend_from_slice(&[0xff; 6]); // broadcast destination
    expected.extend_from_slice(&mac); // source address
    expected.extend_from_slice(&[0x08, 0x06]); // the Ethernet type of the disguise
    expected.extend_from_slice(&[0x00, 0x01]); // hardware type marker
    expected.extend_from_slice(&[0x88, 0xB5]); // discriminator
    expected.extend_from_slice(&[6, 15]); // address lengths: 6, and 14 header + 1 chunk byte
    expected.extend_from_slice(&[0x00, 0x01]); // opcode: request
    expected.extend_from_slice(&mac); // sender hardware address
    let data = [
        b'k', b't', b'p', // magic prefix
        1, 0, 0, // tag, fragment index, last index
        8, 7, 6, 5, 4, 3, 2, 1, // correlation id, little-endian
        0xAA, // the chunk
    ];
    expected.extend_from_slice(&data); // sender protocol address
    expected.extend_from_slice(&[0; 6]); // zeroed target hardware address
    expected.extend_from_slice(&data); // target protocol address
    assert_eq!(frame, expected);
}
