use clipboard_sync::error::AppError;
use clipboard_sync::protocol::{ClipboardEvent, ClipboardKind, Version, WireMessage};
use clipboard_sync::seen::{SeenEvents, SEEN_EVENT_CAPACITY};
use clipboard_sync::sync_engine::{RemoteEventResult, SyncEngine};
use uuid::Uuid;

#[test]
fn duplicate_event_is_not_applied_twice() {
    let origin = Uuid::new_v4().as_u128();
    let mut receiver = SyncEngine::new(Uuid::new_v4().as_u128());
    let mut sender = SyncEngine::new(origin);
    let event = sender.local_event(ClipboardKind::Text, b"hello".to_vec()).unwrap();

    assert_eq!(
        receiver.accept_remote(event.clone()).unwrap(),
        RemoteEventResult::ApplyAndForward
    );
    assert_eq!(receiver.accept_remote(event).unwrap(), RemoteEventResult::Duplicate);
}

#[test]
fn older_event_is_forwarded_but_not_applied() {
    let origin_a = Uuid::from_u128(1).as_u128();
    let origin_b = Uuid::from_u128(2).as_u128();
    let mut receiver = SyncEngine::new(Uuid::new_v4().as_u128());
    let mut sender_a = SyncEngine::new(origin_a);
    let mut sender_b = SyncEngine::new(origin_b);
    let first = sender_a.local_event(ClipboardKind::Text, b"first".to_vec()).unwrap();
    let second = sender_b.local_event(ClipboardKind::Text, b"second".to_vec()).unwrap();

    let (newer, older) = if first.version > second.version {
        (first, second)
    } else {
        (second, first)
    };
    assert_eq!(
        receiver.accept_remote(newer.clone()).unwrap(),
        RemoteEventResult::ApplyAndForward
    );
    assert_eq!(receiver.accept_remote(older).unwrap(), RemoteEventResult::ForwardOnly);
    assert_eq!(receiver.current(), Some(&newer));
}

#[test]
fn clock_advances_after_remote_event() {
    let remote_id = Uuid::new_v4().as_u128();
    let mut receiver = SyncEngine::new(Uuid::new_v4().as_u128());
    let remote = ClipboardEvent::new(remote_id, 100, ClipboardKind::Text, b"x".to_vec()).unwrap();
    receiver.accept_remote(remote).unwrap();
    let local = receiver.local_event(ClipboardKind::Text, b"local".to_vec()).unwrap();
    assert!(local.version.counter > 100);
}

#[test]
fn clock_jumps_past_remote_counter_exactly() {
    let mut receiver = SyncEngine::new(5);
    let remote = ClipboardEvent::new(9, 100, ClipboardKind::Text, b"x".to_vec()).unwrap();
    receiver.accept_remote(remote).unwrap();
    let local = receiver.local_event(ClipboardKind::Text, b"y".to_vec()).unwrap();
    assert_eq!(local.version, Version { counter: 102, device_id: 5 });
}

#[test]
fn clock_saturates_at_maximum() {
    let mut receiver = SyncEngine::new(5);
    let remote = ClipboardEvent::new(9, u64::MAX, ClipboardKind::Text, b"x".to_vec()).unwrap();
    receiver.accept_remote(remote).unwrap();
    let local = receiver.local_event(ClipboardKind::Text, b"y".to_vec()).unwrap();
    assert_eq!(local.version.counter, u64::MAX);
}

#[test]
fn local_events_count_up_and_become_current() {
    let mut engine = SyncEngine::new(7);
    assert!(engine.current().is_none());
    let a = engine.local_event(ClipboardKind::Text, b"a".to_vec()).unwrap();
    let b = engine.local_event(ClipboardKind::Text, b"b".to_vec()).unwrap();
    assert_eq!(a.version, Version { counter: 1, device_id: 7 });
    assert_eq!(b.version, Version { counter: 2, device_id: 7 });
    assert_eq!(engine.current(), Some(&b));
    assert_eq!(engine.accept_remote(b).unwrap(), RemoteEventResult::Duplicate);
}

#[test]
fn refused_local_payload_still_advances_clock() {
    let mut engine = SyncEngine::new(7);
    let result = engine.local_event(ClipboardKind::Png, vec![0; 16 * 1024 * 1024 + 1]);
    assert!(matches!(result, Err(AppError::Protocol(_))));
    assert!(engine.current().is_none());
    let next = engine.local_event(ClipboardKind::Text, b"ok".to_vec()).unwrap();
    assert_eq!(next.version.counter, 2);
}

#[test]
fn invalid_remote_event_changes_nothing() {
    let mut engine = SyncEngine::new(7);
    let mut event = ClipboardEvent::new(9, 50, ClipboardKind::Text, b"x".to_vec()).unwrap();
    event.payload = b"y".to_vec();
    assert!(engine.accept_remote(event.clone()).is_err());
    assert!(engine.current().is_none());
    let local = engine.local_event(ClipboardKind::Text, b"z".to_vec()).unwrap();
    assert_eq!(local.version.counter, 1);
}

#[test]
fn concurrent_updates_converge_in_either_order() {
    let a = ClipboardEvent::new(1, 3, ClipboardKind::Text, b"a".to_vec()).unwrap();
    let b = ClipboardEvent::new(2, 3, ClipboardKind::Text, b"b".to_vec()).unwrap();
    let mut left = SyncEngine::new(10);
    let mut right = SyncEngine::new(11);
    left.accept_remote(a.clone()).unwrap();
    left.accept_remote(b.clone()).unwrap();
    right.accept_remote(b.clone()).unwrap();
    right.accept_remote(a).unwrap();
    assert_eq!(left.current(), Some(&b));
    assert_eq!(right.current(), Some(&b));
}

#[test]
fn should_send_state_cases() {
    let mut engine = SyncEngine::new(7);
    assert!(!engine.should_send_state(None));
    assert!(!engine.should_send_state(Some(&Version { counter: 0, device_id: 0 })));
    let event = engine.local_event(ClipboardKind::Text, b"a".to_vec()).unwrap();
    assert!(engine.should_send_state(None));
    assert!(engine.should_send_state(Some(&Version { counter: 0, device_id: 99 })));
    assert!(!engine.should_send_state(Some(&event.version)));
    assert!(!engine.should_send_state(Some(&Version { counter: 2, device_id: 0 })));
}

#[test]
fn state_request_names_current_version() {
    let mut engine = SyncEngine::new(7);
    assert_eq!(engine.state_request(), WireMessage::StateRequest { known: None });
    let event = engine.local_event(ClipboardKind::Text, b"a".to_vec()).unwrap();
    assert_eq!(engine.state_request(), WireMessage::StateRequest { known: Some(event.version) });
}

#[test]
fn seen_window_forgets_the_oldest_id_past_capacity() {
    let mut seen = SeenEvents::new();
    for id in 0..SEEN_EVENT_CAPACITY as u128 {
        assert!(seen.insert(id));
    }
    assert!(!seen.insert(0));
    assert!(seen.contains(0));
    assert!(seen.insert(SEEN_EVENT_CAPACITY as u128));
    assert!(!seen.contains(0));
    assert!(seen.contains(1));
    assert!(seen.insert(0));
    assert!(!seen.contains(1));
}

#[test]
fn local_event_comes_after_everything_taken_in() {
    let mut engine = SyncEngine::new(1);
    let high = ClipboardEvent::new(9, 500, ClipboardKind::Text, b"h".to_vec()).unwrap();
    let low = ClipboardEvent::new(8, 20, ClipboardKind::Text, b"l".to_vec()).unwrap();
    engine.accept_remote(high.clone()).unwrap();
    engine.accept_remote(low).unwrap();
    let local = engine.local_event(ClipboardKind::Text, b"me".to_vec()).unwrap();
    assert!(high.version.precedes(&local.version));
    assert_eq!(engine.current(), Some(&local));
}

#[test]
fn own_event_coming_back_is_duplicate_within_window() {
    let mut engine = SyncEngine::new(1);
    let own = engine.local_event(ClipboardKind::Text, b"mine".to_vec()).unwrap();
    for i in 0..(SEEN_EVENT_CAPACITY as u64 - 1) {
        let other = ClipboardEvent::new(2, i, ClipboardKind::Text, b"o".to_vec()).unwrap();
        engine.accept_remote(other).unwrap();
    }
    let before = engine.current().cloned();
    assert_eq!(engine.accept_remote(own.clone()).unwrap(), RemoteEventResult::Duplicate);
    assert_eq!(engine.current().cloned(), before);
    let one_more = ClipboardEvent::new(2, 0, ClipboardKind::Text, b"x".to_vec()).unwrap();
    engine.accept_remote(one_more).unwrap();
    assert_ne!(engine.accept_remote(own).unwrap(), RemoteEventResult::Duplicate);
}
