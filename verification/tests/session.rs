use clipboard_sync::clipboard::ClipboardItem;
use clipboard_sync::error::AppError;
use clipboard_sync::protocol::{
    ClipboardEvent, ClipboardKind, Hello, Version, WireMessage, PROTOCOL_VERSION,
};
use clipboard_sync::session::{
    accept_handshake, beacon_accepted, beacon_body, direction_allowed, event_to_item,
    frame_beacon, handle_event, on_message, DiscoveryBeacon, PeerAddress, PeerRegistry,
};
use clipboard_sync::sync_engine::SyncEngine;
use uuid::Uuid;

fn hello_from(device_id: u128) -> WireMessage {
    WireMessage::Hello(Hello { protocol_version: PROTOCOL_VERSION, device_id, listen_port: 8765 })
}

fn protocol_message<T: std::fmt::Debug>(result: Result<T, AppError>) -> String {
    match result {
        Err(AppError::Protocol(message)) => message,
        other => panic!("expected a protocol error, got {other:?}"),
    }
}

fn address(port: u16) -> PeerAddress {
    PeerAddress { v6: false, ip: 0xc0a8_0164, port, flowinfo: 0, scope_id: 0 }
}

#[test]
fn only_lower_device_id_dials() {
    let lower = Uuid::from_u128(1).as_u128();
    let higher = Uuid::from_u128(2).as_u128();
    assert!(direction_allowed(lower, higher, true));
    assert!(!direction_allowed(lower, higher, false));
    assert!(direction_allowed(higher, lower, false));
    assert!(!direction_allowed(higher, lower, true));
}

#[test]
fn handshake_accepts_allowed_hello_once() {
    let mut registry = PeerRegistry::new();
    assert_eq!(accept_handshake(1, true, &mut registry, &hello_from(2)).unwrap(), 2);
    assert_eq!(
        protocol_message(accept_handshake(1, true, &mut registry, &hello_from(2))),
        "peer already has an active connection"
    );
    registry.release(2);
    assert_eq!(accept_handshake(1, true, &mut registry, &hello_from(2)).unwrap(), 2);
}

#[test]
fn handshake_refusals() {
    let mut registry = PeerRegistry::new();
    let old = WireMessage::Hello(Hello { protocol_version: 7, device_id: 2, listen_port: 1 });
    assert_eq!(
        protocol_message(accept_handshake(1, true, &mut registry, &old)),
        "unsupported peer protocol 7"
    );
    assert_eq!(
        protocol_message(accept_handshake(1, true, &mut registry, &hello_from(1))),
        "refusing connection to self"
    );
    assert_eq!(
        protocol_message(accept_handshake(1, false, &mut registry, &hello_from(2))),
        "duplicate connection direction rejected"
    );
    assert_eq!(
        protocol_message(accept_handshake(1, true, &mut registry, &WireMessage::Ping(3))),
        "first peer message was not Hello"
    );
    assert_eq!(accept_handshake(2, false, &mut registry, &hello_from(1)).unwrap(), 1);
}

#[test]
fn registry_tracks_dials_and_schedules() {
    let mut registry = PeerRegistry::new();
    assert!(registry.begin_connect(address(1)));
    assert!(!registry.begin_connect(address(1)));
    assert!(registry.begin_connect(address(2)));
    registry.end_connect(address(1));
    assert!(registry.begin_connect(address(1)));
    assert!(registry.schedule(address(1)));
    assert!(!registry.schedule(address(1)));
    let v6 = PeerAddress { v6: true, ..address(1) };
    assert!(registry.schedule(v6));
    assert!(registry.acquire(9));
    assert!(!registry.acquire(9));
}

#[test]
fn new_remote_event_is_applied_and_forwarded_except_to_source() {
    let mut engine = SyncEngine::new(1);
    let event = ClipboardEvent::new(2, 5, ClipboardKind::Text, b"hi".to_vec()).unwrap();
    let reaction = handle_event(&mut engine, event.clone(), 2).unwrap();
    assert!(reaction.reply.is_none());
    assert_eq!(reaction.apply, Some(ClipboardItem::Text("hi".to_string())));
    let routed = reaction.forward.unwrap();
    assert_eq!(routed.event, event);
    assert_eq!(routed.exclude, Some(2));
    assert!(!routed.delivers_to(2));
    assert!(routed.delivers_to(3));

    let again = handle_event(&mut engine, event, 3).unwrap();
    assert!(again.reply.is_none() && again.apply.is_none() && again.forward.is_none());
}

#[test]
fn older_remote_event_is_only_forwarded() {
    let mut engine = SyncEngine::new(1);
    let newer = ClipboardEvent::new(2, 9, ClipboardKind::Text, b"new".to_vec()).unwrap();
    let older = ClipboardEvent::new(3, 4, ClipboardKind::Text, b"old".to_vec()).unwrap();
    handle_event(&mut engine, newer, 2).unwrap();
    let reaction = handle_event(&mut engine, older.clone(), 3).unwrap();
    assert!(reaction.apply.is_none());
    assert_eq!(reaction.forward.unwrap().event, older);
}

#[test]
fn messages_get_their_answers() {
    let mut engine = SyncEngine::new(1);
    let pong = on_message(&mut engine, 2, WireMessage::Ping(41)).unwrap();
    assert_eq!(pong.reply, Some(WireMessage::Pong(41)));
    let nothing = on_message(&mut engine, 2, WireMessage::Pong(1)).unwrap();
    assert!(nothing.reply.is_none());
    let empty_state = on_message(&mut engine, 2, WireMessage::State { latest: None }).unwrap();
    assert!(empty_state.apply.is_none());
    let quiet = on_message(&mut engine, 2, WireMessage::StateRequest { known: None }).unwrap();
    assert!(quiet.reply.is_none());
    assert_eq!(
        protocol_message(on_message(&mut engine, 2, hello_from(2))),
        "Hello is only valid during handshake"
    );

    let event = ClipboardEvent::new(2, 3, ClipboardKind::Text, b"state".to_vec()).unwrap();
    let applied =
        on_message(&mut engine, 2, WireMessage::State { latest: Some(event.clone()) }).unwrap();
    assert_eq!(applied.apply, Some(ClipboardItem::Text("state".to_string())));
    let reply = on_message(&mut engine, 3, WireMessage::StateRequest { known: None }).unwrap();
    assert_eq!(reply.reply, Some(WireMessage::State { latest: Some(event.clone()) }));
    let known = Some(Version { counter: 3, device_id: 2 });
    let up_to_date = on_message(&mut engine, 3, WireMessage::StateRequest { known }).unwrap();
    assert!(up_to_date.reply.is_none());
}

#[test]
fn tampered_event_message_is_refused() {
    let mut engine = SyncEngine::new(1);
    let mut event = ClipboardEvent::new(2, 3, ClipboardKind::Text, b"a".to_vec()).unwrap();
    event.payload = b"b".to_vec();
    assert_eq!(
        protocol_message(on_message(&mut engine, 2, WireMessage::Event(event))),
        "payload digest mismatch"
    );
}

#[test]
fn event_to_item_by_kind() {
    let text = ClipboardEvent::new(2, 3, ClipboardKind::Text, "né".as_bytes().to_vec()).unwrap();
    assert_eq!(event_to_item(&text).unwrap(), Some(ClipboardItem::Text("né".to_string())));
    let png = ClipboardEvent::new(2, 3, ClipboardKind::Png, vec![1, 2, 3]).unwrap();
    assert_eq!(event_to_item(&png).unwrap(), Some(ClipboardItem::Png(vec![1, 2, 3])));
    let bad = ClipboardEvent::new(2, 3, ClipboardKind::Text, vec![0xc3]).unwrap();
    assert_eq!(protocol_message(event_to_item(&bad)), "text payload is not UTF-8");
}

#[test]
fn beacon_framing_round_trip() {
    let packet = frame_beacon(&[1, 2, 3]);
    assert_eq!(&packet[..13], b"CLIPSYNC-P2P\0");
    assert_eq!(beacon_body(&packet, packet.len()), Some(vec![1, 2, 3]));
    assert_eq!(beacon_body(&packet, 13), None);
    let mut wrong = packet.clone();
    wrong[0] = b'X';
    assert_eq!(beacon_body(&wrong, wrong.len()), None);
}

#[test]
fn beacons_from_higher_ids_only() {
    let beacon = DiscoveryBeacon { protocol_version: PROTOCOL_VERSION, device_id: 5, websocket_port: 8765 };
    assert!(beacon_accepted(3, &beacon));
    assert!(!beacon_accepted(5, &beacon));
    assert!(!beacon_accepted(9, &beacon));
    assert!(!beacon_accepted(3, &DiscoveryBeacon { websocket_port: 0, ..beacon }));
    assert!(!beacon_accepted(3, &DiscoveryBeacon { protocol_version: 2, ..beacon }));
}
