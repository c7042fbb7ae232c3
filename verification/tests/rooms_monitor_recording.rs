//! Rooms, monitoring, sessions, and recording bookkeeping.

use webrtc_server::connection_state::{ConnectionState, ConnectionStateManager};
use webrtc_server::monitoring::{AlertSeverity, ConnectionMetrics, ConnectionMonitor};
use webrtc_server::recording::{FileAction, RecordingManager};
use webrtc_server::room::{MediaSettings, MediaType, Room, RoomManager};
use webrtc_server::session::{
    handle_connection_error, SessionEvent, SessionStep, SignalingSession,
};
use webrtc_server::types::SignalingMessage;

#[test]
fn capacity_is_checked_exactly() {
    let mut room = Room::default();
    room.media_settings.max_participants = 2;
    assert!(room.add_peer("A".to_string()).is_ok());
    assert!(room.add_peer("B".to_string()).is_ok());
    let refused = room.add_peer("C".to_string());
    match refused {
        Err(e) => assert_eq!(e.message(), "Room error: Room is full"),
        Ok(()) => panic!("a full room must refuse a join"),
    }
    assert_eq!(room.peer_ids(), vec!["A".to_string(), "B".to_string()]);
}

#[test]
fn room_membership_operations() {
    let mut room = Room::default();
    room.id = "r1".to_string();
    let _ = room.add_peer("A".to_string());
    let _ = room.add_peer("B".to_string());
    let _ = room.add_peer("C".to_string());
    assert!(room.has_peer("B"));
    assert_eq!(
        room.broadcast_track("B"),
        vec!["A".to_string(), "C".to_string()]
    );
    room.remove_peer("B");
    assert!(!room.has_peer("B"));
    assert_eq!(room.peer_ids(), vec!["A".to_string(), "C".to_string()]);
}

#[test]
fn media_settings_default_is_audio_only() {
    let s = MediaSettings::default();
    assert_eq!(s.max_participants, 10);
    assert_eq!(s.allowed_media_types, vec![MediaType::Audio]);
    assert!(s.bandwidth_limit.is_none());
}

#[test]
fn room_manager_lifecycle() {
    let mut mgr = RoomManager::new();
    assert!(mgr.create_room("r1".to_string()).is_ok());
    let dup = mgr.create_room("r1".to_string());
    match dup {
        Err(e) => assert_eq!(e.message(), "Room error: Room r1 already exists"),
        Ok(()) => panic!("a taken id must be refused"),
    }
    assert!(mgr.add_peer_to_room("r1", "A".to_string()).is_ok());
    let missing = mgr.add_peer_to_room("nope", "A".to_string());
    match missing {
        Err(e) => assert_eq!(e.message(), "Room error: Room nope not found"),
        Ok(()) => panic!("an unknown room must be refused"),
    }
    assert!(mgr.remove_peer_from_room("r1", "A").is_ok());
    assert!(mgr.remove_room("r1").is_ok());
    assert!(mgr.remove_room("r1").is_err());
    assert!(mgr.get_room("r1").is_err());
}

#[test]
fn monitor_counts_and_rates() {
    let mut m = ConnectionMonitor::new();
    m.register_connection("A", 10);
    m.register_connection("B", 11);
    m.register_connection("C", 12);
    m.register_connection("D", 13);
    m.register_connection("E", 14);
    m.update_connection_state("A", "connected", 20);
    m.update_connection_state("B", "connected", 21);
    m.update_connection_state("C", "failed", 22);
    let metrics = m.get_metrics();
    assert_eq!(metrics.total_connections, 5);
    assert_eq!(metrics.active_connections, 2);
    assert_eq!(metrics.failed_connections, 1);
    assert_eq!(metrics.success_rate_percent, 40);
    // one failure in five is exactly a fifth, not over it: no alert
    assert!(m.check_for_alerts(30).is_empty());
    m.handle_disconnect("D", "r1");
    m.handle_disconnect("B", "r1");
    // one failure in three is over a fifth: alert
    let alerts = m.check_for_alerts(31);
    assert_eq!(alerts.len(), 1);
    assert_eq!(alerts[0].severity, AlertSeverity::Error);
    assert_eq!(alerts[0].message, "High connection failure rate: 33%");
    assert_eq!(alerts[0].timestamp, 31);
}

#[test]
fn monitor_tracks_candidates_and_activity() {
    let mut m = ConnectionMonitor::new();
    m.register_connection("A", 5);
    m.record_ice_candidate("A", true, 6);
    m.record_ice_candidate("A", true, 7);
    m.record_ice_candidate("A", false, 8);
    m.record_ice_candidate("ghost", true, 9);
    let stats = m.get_connection_stats();
    assert_eq!(stats.len(), 1);
    assert_eq!(stats[0].peer_id, "A");
    assert_eq!(stats[0].ice_candidates_received, 2);
    assert_eq!(stats[0].ice_candidates_sent, 1);
    assert_eq!(stats[0].last_activity, 8);
    // connected_at is pinned by the first move to connected
    m.update_connection_state("A", "connected", 42);
    m.update_connection_state("A", "connected", 50);
    let stats = m.get_connection_stats();
    assert_eq!(stats[0].connected_at, Some(42));
}

#[test]
fn idle_connections_are_swept() {
    let mut m = ConnectionMonitor::new();
    m.register_connection("A", 100);
    m.register_connection("B", 150);
    m.register_connection("C", 190);
    // at t=220, A is 120 s idle, B 70 s, C 30 s
    let dropped = m.check_connections(220);
    assert_eq!(dropped, vec!["A".to_string(), "B".to_string()]);
    let remaining = m.get_connection_stats();
    assert_eq!(remaining.len(), 1);
    assert_eq!(remaining[0].peer_id, "C");
}

#[test]
fn metrics_collect_over_the_state_machine() {
    let mut sm = ConnectionStateManager::new();
    for p in ["A", "B", "C"] {
        assert!(sm.transition(p, ConnectionState::New, 1));
        assert!(sm.transition(p, ConnectionState::Joining, 2));
        assert!(sm.transition(p, ConnectionState::WaitingForOffer, 3));
        assert!(sm.transition(p, ConnectionState::OfferReceived, 4));
        assert!(sm.transition(p, ConnectionState::AnswerCreated, 5));
    }
    assert!(sm.transition("A", ConnectionState::Connected, 6));
    assert!(sm.transition("B", ConnectionState::Failed, 6));
    let m = ConnectionMetrics::collect(&sm);
    assert_eq!(m.total_connections, 3);
    assert_eq!(m.active_connections, 1);
    assert_eq!(m.failed_connections, 1);
    assert_eq!(m.success_rate_percent, 33);
}

#[test]
fn session_rebinds_on_join() {
    let mut s = SignalingSession::new("temp_abc".to_string());
    let step = s.on_event(SessionEvent::Text(SignalingMessage::Join {
        room_id: "r1".to_string(),
        peer_id: "alice".to_string(),
    }));
    match step {
        SessionStep::Dispatch { rebind, .. } => assert_eq!(rebind.as_deref(), Some("alice")),
        _ => panic!("a join must dispatch with a rebind"),
    }
    // a dying socket now synthesizes the disconnect
    let step = s.on_event(SessionEvent::ReadError);
    match step {
        SessionStep::Disconnect { peer_id, room_id } => {
            assert_eq!(peer_id, "alice");
            assert_eq!(room_id, "r1");
        },
        _ => panic!("a joined session must disconnect on read error"),
    }
}

#[test]
fn session_without_join_ignores_teardown() {
    let mut s = SignalingSession::new("temp_abc".to_string());
    assert!(matches!(s.on_event(SessionEvent::CloseFrame), SessionStep::Ignore));
    assert!(matches!(s.on_event(SessionEvent::ParseFailure), SessionStep::Ignore));
}

#[test]
fn connected_peer_is_asked_to_retry() {
    let mut sm = ConnectionStateManager::new();
    assert!(sm.transition("A", ConnectionState::New, 1));
    assert!(sm.transition("A", ConnectionState::Joining, 2));
    assert!(sm.transition("A", ConnectionState::WaitingForOffer, 3));
    assert!(sm.transition("A", ConnectionState::OfferReceived, 4));
    assert!(sm.transition("A", ConnectionState::AnswerCreated, 5));
    assert!(sm.transition("A", ConnectionState::Connected, 6));
    let msg = handle_connection_error(&mut sm, "A", "write failed".to_string(), 7);
    match msg {
        Some(SignalingMessage::ConnectionError { should_retry, .. }) => assert!(should_retry),
        other => panic!("expected a ConnectionError, got {:?}", other),
    }
    // the table has no recovery edge out of Connected, so the state is kept
    assert_eq!(sm.get_state("A"), Some(ConnectionState::Connected));
}

#[test]
fn connection_errors_follow_the_recovery_policy() {
    let mut sm = ConnectionStateManager::new();
    assert!(sm.transition("A", ConnectionState::New, 1));
    let msg = handle_connection_error(&mut sm, "A", "socket reset".to_string(), 2);
    match msg {
        Some(SignalingMessage::ConnectionError { peer_id, error, should_retry }) => {
            assert_eq!(peer_id, "A");
            assert_eq!(error, "socket reset");
            assert!(!should_retry);
        },
        other => panic!("expected a ConnectionError, got {:?}", other),
    }
    assert_eq!(sm.get_state("A"), Some(ConnectionState::Failed));
    assert!(handle_connection_error(&mut sm, "ghost", "x".to_string(), 3).is_none());
}

#[test]
fn recording_files_per_participant() {
    let mut r = RecordingManager::new();
    let actions = r.start_call_recording(
        "r1",
        "call9".to_string(),
        "20260101_120000".to_string(),
        "2026-01-01T12:00:00Z",
        &vec!["A".to_string(), "B".to_string()],
    );
    assert_eq!(actions.len(), 3);
    assert!(matches!(
        &actions[0],
        FileAction::CreateFile { name } if name == "call_20260101_120000_call9_A.rtp"
    ));
    assert!(matches!(
        &actions[1],
        FileAction::CreateFile { name } if name == "call_20260101_120000_call9_B.rtp"
    ));
    assert!(matches!(
        &actions[2],
        FileAction::WriteMetadata { name } if name == "call_20260101_120000_call9_metadata.json"
    ));
    // starting again is a no-op
    assert!(r
        .start_call_recording(
            "r1",
            "other".to_string(),
            "x".to_string(),
            "t",
            &vec!["A".to_string()],
        )
        .is_empty());
    // a late joiner gets a file and a refreshed sidecar
    let late = r.add_participant("r1", "C", "2026-01-01T12:05:00Z");
    assert_eq!(late.len(), 2);
    assert!(matches!(
        &late[0],
        FileAction::CreateFile { name } if name == "call_20260101_120000_call9_C.rtp"
    ));
    // already listed: nothing to do
    assert!(r.add_participant("r1", "A", "t").is_empty());
    assert!(r.add_participant("ghost", "A", "t").is_empty());
    // packets are appended to the participant's own file
    assert_eq!(
        r.write_rtp_packet("r1", "C").as_deref(),
        Some("call_20260101_120000_call9_C.rtp")
    );
    assert!(r.write_rtp_packet("r1", "ghost").is_none());
    assert!(r.write_rtp_packet("ghost", "A").is_none());
}
