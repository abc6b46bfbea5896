use arpchat::channel::Channel;
use arpchat::commands::{NetCommand, UICommand};
use arpchat::engine::{prebind_step, Engine, NetThreadState, PrebindAction};
use arpchat::error::NetError;
use arpchat::ether_type::EtherType;
use arpchat::ktp::{Id, Packet};
use arpchat::presence::UpdatePresenceKind;

fn engine_with_id(session_id: Id) -> Engine {
    let channel = Channel::new(vec![2, 0, 0, 0, 0, session_id as u8], EtherType::default());
    Engine::new(session_id, channel, 0)
}

/// Carries every frame of one engine step into the other engine,
/// handing each completed packet to it, and collects the events.
fn deliver(frames: &[Vec<u8>], to: &mut Engine, now: u64, corr_id: Id) -> Vec<UICommand> {
    let mut events = Vec::new();
    for frame in frames {
        if let Some(packet) = to.channel.accept_frame(frame) {
            let out = to.handle_packet(packet, now, corr_id);
            events.extend(out.events);
        }
    }
    events
}

#[test]
fn prebind_decisions() {
    assert!(matches!(
        prebind_step(NetCommand::SetInterface { interface_name: String::from("eth0") }),
        PrebindAction::Bind(name) if name == "eth0"
    ));
    assert!(matches!(prebind_step(NetCommand::Terminate), PrebindAction::Stop));
    assert!(matches!(
        prebind_step(NetCommand::PauseHeartbeat(true)),
        PrebindAction::Ignore
    ));
    assert!(matches!(
        prebind_step(NetCommand::SendMessage { message_text: String::from("hi") }),
        PrebindAction::Ignore
    ));
}

#[test]
fn username_update_advances_to_initial_presence() {
    let mut engine = engine_with_id(1);
    assert!(matches!(engine.state, NetThreadState::NeedsUsername));

    let out = engine.handle_command(NetCommand::UpdateUsername(String::from("bob")), 100);
    assert!(matches!(engine.state, NetThreadState::NeedsInitialPresence));
    assert_eq!(engine.username, "bob");
    assert!(out.events.is_empty());
    assert!(!out.terminate);

    // Exactly one broadcast request went out.
    let mut probe = Channel::new(vec![2, 0, 0, 0, 0, 9], EtherType::default());
    let mut packets = Vec::new();
    for frame in &out.frames {
        if let Some(p) = probe.accept_frame(frame) {
            packets.push(p);
        }
    }
    assert_eq!(packets, vec![Packet::PresenceBroadcastRequest]);

    // A second username change no longer announces anything.
    let out = engine.handle_command(NetCommand::UpdateUsername(String::from("rob")), 101);
    assert!(out.frames.is_empty());
    assert!(matches!(engine.state, NetThreadState::NeedsInitialPresence));
}

#[test]
fn own_presence_echo_advances_to_ready() {
    let mut engine = engine_with_id(1);
    engine.handle_command(NetCommand::UpdateUsername(String::from("bob")), 100);

    let own = Packet::PresenceInformation {
        id: 1,
        is_join: true,
        username: String::from("bob"),
    };
    engine.handle_packet(own, 50, 102);
    assert!(matches!(engine.state, NetThreadState::Ready));
}

#[test]
fn second_interface_is_refused() {
    let mut engine = engine_with_id(1);
    let out = engine.handle_command(
        NetCommand::SetInterface { interface_name: String::from("eth1") },
        100,
    );
    assert_eq!(out.events.len(), 1);
    assert!(matches!(
        out.events[0],
        UICommand::SendNetError(NetError::InterfaceAlreadySet)
    ));
    assert!(out.frames.is_empty());
}

#[test]
fn send_message_echoes_locally_and_sends() {
    let mut engine = engine_with_id(1);
    engine.handle_command(NetCommand::UpdateUsername(String::from("alice")), 100);
    let out = engine.handle_command(
        NetCommand::SendMessage { message_text: String::from("hi") },
        101,
    );
    assert_eq!(out.events.len(), 1);
    match &out.events[0] {
        UICommand::ShowMessage { id, username, message, is_outgoing_message } => {
            assert_eq!(*id, 1);
            assert_eq!(username, "alice");
            assert_eq!(message, "hi");
            assert!(*is_outgoing_message);
        }
        other => panic!("unexpected event: {:?}", other),
    }
    assert!(!out.frames.is_empty());
}

#[test]
fn oversize_message_reports_error_and_sends_nothing() {
    let mut engine = engine_with_id(1);
    let mut text = String::new();
    for _ in 0..70000 {
        // Characters the compressor keeps verbatim, so the body stays large.
        text.push('\u{1}');
    }
    let out = engine.handle_command(NetCommand::SendMessage { message_text: text }, 101);
    assert!(out.frames.is_empty());
    assert_eq!(out.events.len(), 2);
    assert!(matches!(out.events[0], UICommand::ShowMessage { .. }));
    assert!(matches!(
        out.events[1],
        UICommand::SendNetError(NetError::MessageTooLong)
    ));
}

#[test]
fn broadcast_request_is_answered_with_join_flag_by_state() {
    let mut engine = engine_with_id(1);
    engine.handle_command(NetCommand::UpdateUsername(String::from("carol")), 100);
    assert!(matches!(engine.state, NetThreadState::NeedsInitialPresence));

    let out = engine.handle_packet(Packet::PresenceBroadcastRequest, 10, 103);
    let mut probe = Channel::new(vec![2, 0, 0, 0, 0, 9], EtherType::default());
    let mut packets = Vec::new();
    for frame in &out.frames {
        if let Some(p) = probe.accept_frame(frame) {
            packets.push(p);
        }
    }
    assert_eq!(
        packets,
        vec![Packet::PresenceInformation {
            id: 1,
            is_join: true,
            username: String::from("carol"),
        }]
    );

    engine.state = NetThreadState::Ready;
    let out = engine.handle_packet(Packet::PresenceBroadcastRequest, 11, 104);
    let mut packets = Vec::new();
    for frame in &out.frames {
        if let Some(p) = probe.accept_frame(frame) {
            packets.push(p);
        }
    }
    assert_eq!(
        packets,
        vec![Packet::PresenceInformation {
            id: 1,
            is_join: false,
            username: String::from("carol"),
        }]
    );
}

#[test]
fn presence_kinds_join_update_change() {
    let mut engine = engine_with_id(1);
    // A joining peer.
    let out = engine.handle_packet(
        Packet::PresenceInformation { id: 7, is_join: true, username: String::from("dan") },
        10,
        100,
    );
    assert_eq!(out.events.len(), 1);
    assert!(matches!(
        &out.events[0],
        UICommand::PresenceUpdate { id: 7, is_inactive: false,
            kind: UpdatePresenceKind::JoinOrReconnect, .. }
    ));

    // The same name again: a silent refresh.
    let out = engine.handle_packet(
        Packet::PresenceInformation { id: 7, is_join: false, username: String::from("dan") },
        20,
        101,
    );
    assert!(out.events.is_empty());

    // A new name: a username change carrying the old one.
    let out = engine.handle_packet(
        Packet::PresenceInformation { id: 7, is_join: false, username: String::from("dana") },
        30,
        102,
    );
    assert_eq!(out.events.len(), 1);
    match &out.events[0] {
        UICommand::PresenceUpdate { id, username, is_inactive, kind } => {
            assert_eq!(*id, 7);
            assert_eq!(username, "dana");
            assert!(!*is_inactive);
            assert!(matches!(
                kind,
                UpdatePresenceKind::UsernameChange { previous_username } if previous_username == "dan"
            ));
        }
        other => panic!("unexpected event: {:?}", other),
    }

    // A routine first sighting without the join flag.
    let out = engine.handle_packet(
        Packet::PresenceInformation { id: 8, is_join: false, username: String::from("eve") },
        40,
        103,
    );
    assert_eq!(out.events.len(), 1);
    assert!(matches!(
        &out.events[0],
        UICommand::PresenceUpdate { id: 8, kind: UpdatePresenceKind::Boring, .. }
    ));
}

#[test]
fn message_from_unknown_author_uses_placeholder() {
    let mut engine = engine_with_id(1);
    let out = engine.handle_packet(
        Packet::Message { id: 9, message_text: String::from("anyone here?") },
        10,
        100,
    );
    assert_eq!(out.events.len(), 1);
    match &out.events[0] {
        UICommand::ShowMessage { username, is_outgoing_message, .. } => {
            assert_eq!(username, "Unknown");
            assert!(!*is_outgoing_message);
        }
        other => panic!("unexpected event: {:?}", other),
    }
}

#[test]
fn heartbeat_sweep_flags_and_removes_peers() {
    let mut engine = engine_with_id(1);
    engine.state = NetThreadState::Ready;
    // One peer last seen 13s before the sweep, one 7s, one 1s.
    engine.handle_packet(
        Packet::PresenceInformation { id: 10, is_join: true, username: String::from("old") },
        0,
        100,
    );
    engine.handle_packet(
        Packet::PresenceInformation { id: 11, is_join: true, username: String::from("idle") },
        6_000,
        101,
    );
    engine.handle_packet(
        Packet::PresenceInformation { id: 12, is_join: true, username: String::from("fresh") },
        12_000,
        102,
    );

    let out = engine.heartbeat_tick(13_000, 103);
    assert!(!out.terminate);
    // The announcement of our own presence went out.
    assert!(!out.frames.is_empty());

    assert_eq!(out.events.len(), 2);
    match &out.events[0] {
        UICommand::RemovePresence { id, username } => {
            assert_eq!(*id, 10);
            assert_eq!(username, "old");
        }
        other => panic!("unexpected event: {:?}", other),
    }
    match &out.events[1] {
        UICommand::PresenceUpdate { id, username, is_inactive, kind } => {
            assert_eq!(*id, 11);
            assert_eq!(username, "idle");
            assert!(*is_inactive);
            assert!(matches!(kind, UpdatePresenceKind::Boring));
        }
        other => panic!("unexpected event: {:?}", other),
    }

    // The offline peer is gone from the table; the others remain.
    let ids: Vec<u64> = engine.online.entries.iter().map(|e| e.id).collect();
    assert_eq!(ids, vec![11, 12]);

    // Its next announcement reads as a reconnect.
    let out = engine.handle_packet(
        Packet::PresenceInformation { id: 10, is_join: false, username: String::from("old") },
        14_000,
        104,
    );
    assert_eq!(out.events.len(), 1);
    assert!(matches!(
        &out.events[0],
        UICommand::PresenceUpdate { id: 10, kind: UpdatePresenceKind::JoinOrReconnect, .. }
    ));
}

#[test]
fn heartbeat_not_due_or_not_ready_does_nothing() {
    let mut engine = engine_with_id(1);
    // Not ready yet.
    let out = engine.heartbeat_tick(60_000, 100);
    assert!(out.events.is_empty() && out.frames.is_empty());
    // Ready, but the interval has not passed.
    engine.state = NetThreadState::Ready;
    engine.last_heartbeat = 60_000;
    let out = engine.heartbeat_tick(62_000, 101);
    assert!(out.events.is_empty() && out.frames.is_empty());
}

#[test]
fn paused_heartbeat_sweeps_without_announcing() {
    let mut engine = engine_with_id(1);
    engine.state = NetThreadState::Ready;
    engine.handle_command(NetCommand::PauseHeartbeat(true), 100);
    assert!(engine.pause_heartbeat);
    engine.handle_packet(
        Packet::PresenceInformation { id: 10, is_join: true, username: String::from("old") },
        0,
        101,
    );
    let out = engine.heartbeat_tick(13_000, 102);
    assert!(out.frames.is_empty());
    assert_eq!(out.events.len(), 1);
    assert!(matches!(&out.events[0], UICommand::RemovePresence { id: 10, .. }));
}

#[test]
fn terminate_sends_disconnect() {
    let mut engine = engine_with_id(1);
    let out = engine.handle_command(NetCommand::Terminate, 100);
    assert!(out.terminate);
    let mut probe = Channel::new(vec![2, 0, 0, 0, 0, 9], EtherType::default());
    let mut packets = Vec::new();
    for frame in &out.frames {
        if let Some(p) = probe.accept_frame(frame) {
            packets.push(p);
        }
    }
    assert_eq!(packets, vec![Packet::Disconnect(1)]);
}

#[test]
fn two_engines_exchange_a_message() {
    let mut alice = engine_with_id(1);
    let mut bob = engine_with_id(2);
    alice.handle_command(NetCommand::UpdateUsername(String::from("alice")), 100);
    bob.handle_command(NetCommand::UpdateUsername(String::from("bob")), 200);

    // Bob learns who alice is from her presence announcement.
    let out = alice.handle_packet(Packet::PresenceBroadcastRequest, 10, 101);
    deliver(&out.frames, &mut bob, 10, 201);

    // Alice sends a message that mentions bob.
    let out = alice.handle_command(
        NetCommand::SendMessage { message_text: String::from("hi bob") },
        102,
    );
    // Her own side shows it as outgoing, with no alert.
    assert_eq!(out.events.len(), 1);
    match &out.events[0] {
        UICommand::ShowMessage { username, message, is_outgoing_message, .. } => {
            assert_eq!(username, "alice");
            assert_eq!(message, "hi bob");
            assert!(*is_outgoing_message);
        }
        other => panic!("unexpected event: {:?}", other),
    }

    // Bob's side raises the alert and shows the inbound message.
    let events = deliver(&out.frames, &mut bob, 11, 202);
    assert_eq!(events.len(), 2);
    assert!(matches!(events[0], UICommand::AlertUser));
    match &events[1] {
        UICommand::ShowMessage { username, message, is_outgoing_message, .. } => {
            assert_eq!(username, "alice");
            assert_eq!(message, "hi bob");
            assert!(!*is_outgoing_message);
        }
        other => panic!("unexpected event: {:?}", other),
    }
}

#[test]
fn disconnect_removes_peer_presence() {
    let mut alice = engine_with_id(1);
    let mut bob = engine_with_id(2);
    alice.handle_command(NetCommand::UpdateUsername(String::from("alice")), 100);
    bob.handle_command(NetCommand::UpdateUsername(String::from("bob")), 200);

    // Alice learns who bob is.
    let out = bob.handle_packet(Packet::PresenceBroadcastRequest, 10, 201);
    deliver(&out.frames, &mut alice, 10, 101);

    // Bob terminates; alice sees the removal under his name.
    let out = bob.handle_command(NetCommand::Terminate, 202);
    assert!(out.terminate);
    let events = deliver(&out.frames, &mut alice, 12, 103);
    assert_eq!(events.len(), 1);
    match &events[0] {
        UICommand::RemovePresence { id, username } => {
            assert_eq!(*id, 2);
            assert_eq!(username, "bob");
        }
        other => panic!("unexpected event: {:?}", other),
    }
}
