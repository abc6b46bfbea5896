use arpchat::ktp::Packet;

fn round_trip(p: Packet) {
    let tag = p.tag();
    let body = p.serialize();
    let decoded = Packet::deserialize(tag, &body);
    assert_eq!(decoded, Some(p));
}

#[test]
fn round_trip_message() {
    round_trip(Packet::Message {
        id: 0x0102030405060708,
        message_text: String::from("hi bob"),
    });
}

#[test]
fn round_trip_message_empty_text() {
    round_trip(Packet::Message { id: 7, message_text: String::new() });
}

#[test]
fn round_trip_message_unicode() {
    round_trip(Packet::Message {
        id: u64::MAX,
        message_text: String::from("héllo wörld ✓ λ"),
    });
}

#[test]
fn round_trip_presence_broadcast_request() {
    round_trip(Packet::PresenceBroadcastRequest);
}

#[test]
fn round_trip_presence_information() {
    round_trip(Packet::PresenceInformation {
        id: 42,
        is_join: true,
        username: String::from("alice"),
    });
    round_trip(Packet::PresenceInformation {
        id: 0,
        is_join: false,
        username: String::new(),
    });
}

#[test]
fn round_trip_disconnect() {
    round_trip(Packet::Disconnect(0xdeadbeef00112233));
}

#[test]
fn tags_are_fixed() {
    assert_eq!(Packet::Message { id: 1, message_text: String::new() }.tag(), 0);
    assert_eq!(Packet::PresenceBroadcastRequest.tag(), 1);
    assert_eq!(
        Packet::PresenceInformation { id: 1, is_join: false, username: String::new() }.tag(),
        2
    );
    assert_eq!(Packet::Disconnect(1).tag(), 3);
}

#[test]
fn message_body_is_compressed() {
    // If the compressor handed its input back unchanged, the body
    // would be at least the id plus the raw text.
    let text = "the end of the story is that the story is the story";
    let p = Packet::Message { id: 1, message_text: String::from(text) };
    let body = p.serialize();
    assert!(body.len() < 8 + text.len());
}

#[test]
fn deserialize_rejects_unknown_tag() {
    assert_eq!(Packet::deserialize(4, &[0; 8]), None);
    assert_eq!(Packet::deserialize(255, &[]), None);
}

#[test]
fn deserialize_rejects_truncated_message() {
    assert_eq!(Packet::deserialize(0, &[1, 2, 3]), None);
}

#[test]
fn deserialize_rejects_dangling_compression_marker() {
    // A body whose compressed part ends in a bare verbatim marker.
    let mut body = vec![0u8; 8];
    body.push(254);
    assert_eq!(Packet::deserialize(0, &body), None);
    let mut body = vec![0u8; 8];
    body.push(255);
    assert_eq!(Packet::deserialize(0, &body), None);
}

#[test]
fn deserialize_rejects_invalid_utf8_username() {
    let mut body = vec![0u8; 8];
    body.push(1); // is_join
    body.extend_from_slice(&[0xff, 0xfe]); // not UTF-8
    assert_eq!(Packet::deserialize(2, &body), None);
}

#[test]
fn deserialize_rejects_truncated_presence_information() {
    assert_eq!(Packet::deserialize(2, &[0; 8]), None);
}

#[test]
fn deserialize_rejects_wrong_length_disconnect() {
    assert_eq!(Packet::deserialize(3, &[0; 7]), None);
    assert_eq!(Packet::deserialize(3, &[0; 9]), None);
}

#[test]
fn deserialize_is_join_from_any_nonzero_byte() {
    let mut body = vec![9u8, 8, 7, 6, 5, 4, 3, 2];
    body.push(2); // any nonzero byte means joining
    body.extend_from_slice("bob".as_bytes());
    match Packet::deserialize(2, &body) {
        Some(Packet::PresenceInformation { is_join, username, .. }) => {
            assert!(is_join);
            assert_eq!(username, "bob");
        }
        other => panic!("unexpected decode result: {:?}", other),
    }
}

#[test]
fn broadcast_request_ignores_body() {
    assert_eq!(
        Packet::deserialize(1, &[1, 2, 3]),
        Some(Packet::PresenceBroadcastRequest)
    );
}

#[test]
fn exact_wire_bytes_of_each_variant() {
    // Identifier bytes go out in little-endian order.
    let p = Packet::Disconnect(0x0102030405060708);
    assert_eq!(p.serialize(), vec![8, 7, 6, 5, 4, 3, 2, 1]);

    let p = Packet::PresenceInformation {
        id: 0x0102030405060708,
        is_join: true,
        username: String::from("ab"),
    };
    assert_eq!(p.serialize(), vec![8, 7, 6, 5, 4, 3, 2, 1, 1, b'a', b'b']);

    assert_eq!(Packet::PresenceBroadcastRequest.serialize(), Vec::<u8>::new());
}
