//! The relay's ICE buffering and the signaling state machine.

use webrtc_server::connection_state::{ConnectionState, ConnectionStateManager};
use webrtc_server::relay::{
    MediaRelay, MediaRelayManager, RelayConnectionState, RtpStatsReport,
};

#[test]
fn ice_buffered_until_remote_description() {
    let mut relay = MediaRelay::new("A".to_string());
    assert!(!relay.has_remote_description());
    assert!(relay.add_ice_candidate("cand1".to_string()).is_none());
    assert!(relay.add_ice_candidate("cand2".to_string()).is_none());
    // setting the description drains the buffer, oldest first
    let drained = relay.set_remote_description("v=0".to_string());
    assert_eq!(drained, vec!["cand1".to_string(), "cand2".to_string()]);
    assert!(relay.has_remote_description());
    // later candidates apply immediately
    assert_eq!(relay.add_ice_candidate("cand3".to_string()).as_deref(), Some("cand3"));
}

#[test]
fn ice_drain_is_exhaustive() {
    let mut relay = MediaRelay::new("A".to_string());
    relay.buffer_ice_candidate("x".to_string());
    let drained = relay.add_buffered_candidates();
    assert_eq!(drained, vec!["x".to_string()]);
    // a second drain finds nothing
    assert!(relay.add_buffered_candidates().is_empty());
}

#[test]
fn send_signal_needs_data_channel() {
    let mut relay = MediaRelay::new("A".to_string());
    assert!(relay.send_signal().is_err());
    relay.set_data_channel();
    assert!(relay.send_signal().is_ok());
}

#[test]
fn media_stats_sums_reports() {
    let relay = MediaRelay::new("A".to_string());
    let reports = vec![
        RtpStatsReport::InboundRtp { packets_received: 10, bytes_received: 1000 },
        RtpStatsReport::OutboundRtp { packets_sent: 7, bytes_sent: 700 },
        RtpStatsReport::InboundRtp { packets_received: 5, bytes_received: 500 },
        RtpStatsReport::Other,
    ];
    let stats = relay.get_stats(&reports, 12345);
    assert_eq!(stats.packets_received, 15);
    assert_eq!(stats.bytes_received, 1500);
    assert_eq!(stats.packets_sent, 7);
    assert_eq!(stats.bytes_sent, 700);
    assert_eq!(stats.last_updated, 12345);
}

#[test]
fn stale_relays_are_swept() {
    let mut mgr = MediaRelayManager::new(
        "stun.example".to_string(),
        3478,
        "turn.example".to_string(),
        3478,
        "user".to_string(),
        "pass".to_string(),
    );
    mgr.create_relay("A".to_string());
    mgr.create_relay("B".to_string());
    mgr.create_relay("C".to_string());
    assert_eq!(mgr.get_active_peer_count(), 3);
    let observed = vec![
        ("A".to_string(), RelayConnectionState::Connected),
        ("B".to_string(), RelayConnectionState::Failed),
        ("C".to_string(), RelayConnectionState::Disconnected),
    ];
    let stale = mgr.cleanup_stale_relays(&observed);
    assert_eq!(stale, vec!["B".to_string(), "C".to_string()]);
    assert_eq!(mgr.get_active_peer_count(), 1);
    assert!(mgr.get_relay("A").is_some());
    assert!(mgr.get_relay("B").is_none());
}

#[test]
fn broadcast_track_reaches_everyone_else() {
    let mut mgr = MediaRelayManager::new(
        "s".to_string(),
        1,
        "t".to_string(),
        2,
        "u".to_string(),
        "p".to_string(),
    );
    mgr.create_relay("A".to_string());
    mgr.create_relay("B".to_string());
    mgr.create_relay("C".to_string());
    assert_eq!(
        mgr.broadcast_track("B"),
        vec!["A".to_string(), "C".to_string()]
    );
}

#[test]
fn ice_urls_are_formatted() {
    let mgr = MediaRelayManager::new(
        "stun.example".to_string(),
        3478,
        "turn.example".to_string(),
        5349,
        "u".to_string(),
        "p".to_string(),
    );
    assert_eq!(mgr.stun_url(), "stun:stun.example:3478");
    assert_eq!(mgr.turn_url(), "turn:turn.example:5349");
}

#[test]
fn lifecycle_walks_the_table() {
    let mut m = ConnectionStateManager::new();
    assert!(m.transition("A", ConnectionState::New, 1));
    assert!(m.transition("A", ConnectionState::Joining, 2));
    assert!(m.transition("A", ConnectionState::WaitingForOffer, 3));
    assert!(m.transition("A", ConnectionState::OfferReceived, 4));
    assert!(m.transition("A", ConnectionState::AnswerCreated, 5));
    assert!(m.transition("A", ConnectionState::Connected, 6));
    assert_eq!(m.get_state("A"), Some(ConnectionState::Connected));
    assert_eq!(m.log_len(), 6);
}

#[test]
fn s6_illegal_transition() {
    let mut m = ConnectionStateManager::new();
    assert!(m.transition("A", ConnectionState::New, 1));
    assert!(m.transition("A", ConnectionState::Joining, 2));
    assert!(m.transition("A", ConnectionState::WaitingForOffer, 3));
    assert!(m.transition("A", ConnectionState::OfferReceived, 4));
    assert!(m.transition("A", ConnectionState::AnswerCreated, 5));
    assert!(m.transition("A", ConnectionState::Connected, 6));
    // a synthetic step backwards is refused and the state is kept
    assert!(!m.transition("A", ConnectionState::OfferReceived, 7));
    assert_eq!(m.get_state("A"), Some(ConnectionState::Connected));
    assert_eq!(m.log_len(), 6);
}

#[test]
fn terminal_states_accept_nothing() {
    let mut m = ConnectionStateManager::new();
    assert!(m.transition("A", ConnectionState::New, 1));
    assert!(m.transition("A", ConnectionState::Failed, 2));
    assert!(!m.transition("A", ConnectionState::Closed, 3));
    assert!(!m.transition("A", ConnectionState::Joining, 4));
    assert_eq!(m.get_state("A"), Some(ConnectionState::Failed));
}

#[test]
fn unknown_peer_only_starts_at_new() {
    let mut m = ConnectionStateManager::new();
    assert!(!m.transition("A", ConnectionState::Connected, 1));
    assert!(!m.transition("A", ConnectionState::Joining, 2));
    assert!(m.transition("A", ConnectionState::New, 3));
    let e = m.log_at(0);
    assert_eq!(e.peer_id, "A");
    assert_eq!(e.from_state, None);
    assert_eq!(e.to_state, ConnectionState::New);
    assert_eq!(e.timestamp, 3);
}
