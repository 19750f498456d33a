use clipboard_sync::decimal::decimal_string;
use clipboard_sync::digest::digests_equal;
use clipboard_sync::error::AppError;
use clipboard_sync::protocol::{
    ClipboardEvent, ClipboardKind, Hello, Version, WireMessage, MAX_FRAME_BYTES,
    MAX_PAYLOAD_BYTES, PROTOCOL_VERSION,
};
use uuid::Uuid;

const PNG_SIGNATURE: [u8; 8] = [0x89, b'P', b'N', b'G', b'\r', b'\n', 0x1a, b'\n'];

/// The bytes that bincode writes for `WireMessage::Event(event)`.
fn event_frame(event: &ClipboardEvent) -> Vec<u8> {
    let kind: u32 = match event.kind {
        ClipboardKind::Text => 0,
        ClipboardKind::Png => 1,
    };
    bincode::serialize(&(
        1u32,
        (
            Uuid::from_u128(event.event_id),
            Uuid::from_u128(event.origin),
            (event.version.counter, Uuid::from_u128(event.version.device_id)),
            kind,
            event.payload.clone(),
            event.digest,
        ),
    ))
    .unwrap()
}

type EventTuple = (u32, (Uuid, Uuid, (u64, Uuid), u32, Vec<u8>, [u8; 32]));

/// Reads back a frame written by `event_frame`, as bincode parses it.
fn parse_event_frame(frame: &[u8]) -> WireMessage {
    let (variant, (event_id, origin, (counter, device), kind, payload, digest)): EventTuple =
        bincode::deserialize(frame).unwrap();
    assert_eq!(variant, 1);
    WireMessage::Event(ClipboardEvent {
        event_id: event_id.as_u128(),
        origin: origin.as_u128(),
        version: Version { counter, device_id: device.as_u128() },
        kind: if kind == 0 { ClipboardKind::Text } else { ClipboardKind::Png },
        payload,
        digest,
    })
}

fn protocol_message(result: Result<impl std::fmt::Debug, AppError>) -> String {
    match result {
        Err(AppError::Protocol(message)) => message,
        other => panic!("expected a protocol error, got {other:?}"),
    }
}

#[test]
fn round_trips_event_as_binary() {
    let device = Uuid::new_v4().as_u128();
    let event =
        ClipboardEvent::new(device, 1, ClipboardKind::Text, "hello".as_bytes().to_vec()).unwrap();
    let frame = event_frame(&event);
    let decoded = WireMessage::decode(&frame, Ok(parse_event_frame(&frame))).unwrap();
    assert_eq!(decoded, WireMessage::Event(event));
}

#[test]
fn rejects_tampered_payload() {
    let device = Uuid::new_v4().as_u128();
    let mut event =
        ClipboardEvent::new(device, 1, ClipboardKind::Text, b"hello".to_vec()).unwrap();
    event.payload = b"tampered".to_vec();
    let frame = event_frame(&event);
    let result = WireMessage::decode(&frame, Ok(parse_event_frame(&frame)));
    assert!(matches!(result, Err(AppError::Protocol(message)) if message.contains("digest")));
}

#[test]
fn rejects_oversized_payload() {
    let result = ClipboardEvent::new(
        Uuid::new_v4().as_u128(),
        1,
        ClipboardKind::Png,
        vec![0; MAX_PAYLOAD_BYTES + 1],
    );
    assert!(result.is_err());
}

#[test]
fn version_order_is_deterministic_for_concurrent_events() {
    let a = Version { counter: 7, device_id: Uuid::from_u128(1).as_u128() };
    let b = Version { counter: 7, device_id: Uuid::from_u128(2).as_u128() };
    assert!(a < b);
    assert!(a.precedes(&b));
    assert!(!b.precedes(&a));
}

#[test]
fn version_order_puts_counter_first() {
    let a = Version { counter: 7, device_id: 9 };
    let b = Version { counter: 8, device_id: 1 };
    assert!(a.precedes(&b));
    assert!(!b.precedes(&a));
    assert!(!a.precedes(&a));
}

#[test]
fn oversized_payload_message_names_both_sizes() {
    let message = protocol_message(ClipboardEvent::new(
        5,
        1,
        ClipboardKind::Text,
        vec![b'a'; MAX_PAYLOAD_BYTES + 1],
    ));
    assert_eq!(message, "payload is 16777217 bytes, maximum is 16777216");
}

#[test]
fn new_event_fields_and_digest() {
    let event = ClipboardEvent::new(42, 9, ClipboardKind::Text, b"abc".to_vec()).unwrap();
    assert_eq!(event.origin, 42);
    assert_eq!(event.version, Version { counter: 9, device_id: 42 });
    assert_eq!(event.payload, b"abc".to_vec());
    assert_eq!(event.digest, *blake3::hash(b"abc").as_bytes());
    assert_eq!(Uuid::from_u128(event.event_id).get_version_num(), 4);
    assert!(event.validate().is_ok());
}

#[test]
fn fresh_events_get_distinct_ids() {
    let a = ClipboardEvent::new(1, 1, ClipboardKind::Text, b"x".to_vec()).unwrap();
    let b = ClipboardEvent::new(1, 1, ClipboardKind::Text, b"x".to_vec()).unwrap();
    assert_ne!(a.event_id, b.event_id);
}

#[test]
fn digest_is_blake3_of_the_bytes() {
    let event = ClipboardEvent::new(1, 1, ClipboardKind::Text, b"hello".to_vec()).unwrap();
    assert_eq!(event.digest, *blake3::hash(b"hello").as_bytes());
    assert_ne!(event.digest[..5], b"hello"[..]);
    assert!(digests_equal(&event.digest, &event.digest));
    assert!(!digests_equal(&event.digest, blake3::hash(b"hellp").as_bytes()));
}

#[test]
fn validate_rejects_origin_mismatch() {
    let mut event = ClipboardEvent::new(1, 1, ClipboardKind::Text, b"x".to_vec()).unwrap();
    event.origin = 2;
    assert_eq!(protocol_message(event.validate()), "origin and version device differ");
}

#[test]
fn validate_rejects_oversized_payload() {
    let payload = vec![0u8; MAX_PAYLOAD_BYTES + 1];
    let event = ClipboardEvent {
        event_id: 1,
        origin: 1,
        version: Version { counter: 1, device_id: 1 },
        kind: ClipboardKind::Png,
        digest: *blake3::hash(&payload).as_bytes(),
        payload,
    };
    assert_eq!(protocol_message(event.validate()), "payload exceeds configured limit");
}

#[test]
fn validate_rejects_text_that_is_not_utf8() {
    let event = ClipboardEvent::new(1, 1, ClipboardKind::Text, vec![0xff, 0xfe]).unwrap();
    assert_eq!(protocol_message(event.validate()), "text payload is not valid UTF-8");
}

#[test]
fn validate_accepts_multibyte_text() {
    let event = ClipboardEvent::new(1, 1, ClipboardKind::Text, "héllo €𝄞".as_bytes().to_vec())
        .unwrap();
    assert!(event.validate().is_ok());
}

#[test]
fn validate_rejects_empty_png() {
    let event = ClipboardEvent::new(1, 1, ClipboardKind::Png, Vec::new()).unwrap();
    assert_eq!(protocol_message(event.validate()), "PNG payload cannot be empty");
}

#[test]
fn validate_rejects_png_without_signature() {
    let event = ClipboardEvent::new(1, 1, ClipboardKind::Png, b"GIF89a..".to_vec()).unwrap();
    assert_eq!(protocol_message(event.validate()), "PNG payload has an invalid signature");
}

#[test]
fn validate_accepts_png_signature() {
    let mut payload = PNG_SIGNATURE.to_vec();
    payload.extend_from_slice(b"rest");
    let event = ClipboardEvent::new(1, 1, ClipboardKind::Png, payload).unwrap();
    assert!(event.validate().is_ok());
}

#[test]
fn decode_refuses_oversized_frame_whatever_was_parsed() {
    let frame = vec![0u8; MAX_FRAME_BYTES + 1];
    assert!(!WireMessage::frame_within_limit(&frame));
    let result = WireMessage::decode(&frame, Ok(WireMessage::Ping(1)));
    assert_eq!(protocol_message(result), "frame exceeds configured limit");
}

#[test]
fn decode_passes_parse_errors_and_other_messages() {
    let frame = vec![0u8; 12];
    assert!(WireMessage::frame_within_limit(&frame));
    let result = WireMessage::decode(&frame, Err(AppError::Serialization("bad".into())));
    assert!(matches!(result, Err(AppError::Serialization(m)) if m == "bad"));
    let hello = Hello { protocol_version: PROTOCOL_VERSION, device_id: 3, listen_port: 8765 };
    assert_eq!(
        WireMessage::decode(&frame, Ok(WireMessage::Hello(hello))).unwrap(),
        WireMessage::Hello(hello)
    );
}

#[test]
fn clone_keeps_every_field() {
    let event = ClipboardEvent::new(3, 4, ClipboardKind::Text, b"copy".to_vec()).unwrap();
    assert_eq!(event.clone(), event);
}

#[test]
fn decimal_formatting() {
    assert_eq!(decimal_string(0), "0");
    assert_eq!(decimal_string(7), "7");
    assert_eq!(decimal_string(10), "10");
    assert_eq!(decimal_string(16777216), "16777216");
    assert_eq!(decimal_string(u64::MAX), u64::MAX.to_string());
}
