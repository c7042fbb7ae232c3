//! TURN credentials, wire decoding, and the small string helpers.

use webrtc_server::error::Error;
use webrtc_server::session::get_peer_id_from_temp;
use webrtc_server::strutil::{decimal_string, has_prefix, str_eq};
use webrtc_server::turn::{TurnCredentials, TURN_CREDENTIAL_TTL_SECS};
use webrtc_server::types;
use webrtc_server::types::SignalingMessage;
use webrtc_server::wire::normalize_candidate;

#[test]
fn turn_credentials_match_the_scheme() {
    let c = TurnCredentials::from_timestamp(
        "turn.example".to_string(),
        3478,
        "s3cret",
        1000,
    );
    assert_eq!(c.username, "44200:webrtc-user");
    // HMAC-SHA1("s3cret", "44200:webrtc-user"), base64 with padding
    assert_eq!(c.password, "f+sJONF+29AuwLHhunIlosmu9Qo=");
    assert_eq!(c.password.len(), 28);
    assert_eq!(c.ttl, 43200);
    assert_eq!(c.server, "turn.example");
    assert_eq!(c.port, 3478);
}

#[test]
fn turn_credentials_now_are_well_formed() {
    let c = TurnCredentials::new("turn.example".to_string(), 3478, "secret");
    assert_eq!(c.ttl, TURN_CREDENTIAL_TTL_SECS);
    assert!(c.username.ends_with(":webrtc-user"));
    // a base64 SHA1 tag is always 28 characters
    assert_eq!(c.password.len(), 28);
}

#[test]
fn static_turn_credentials_copy_the_config() {
    let c = types::TurnCredentials::new("host.example".to_string(), 3478, "pw");
    assert_eq!(c.stun_server, "host.example");
    assert_eq!(c.turn_server, "host.example");
    assert_eq!(c.stun_port, 3478);
    assert_eq!(c.turn_port, 3478);
    assert_eq!(c.username, "user");
    assert_eq!(c.password, "pw");
}

#[test]
fn server_config_defaults() {
    let c = types::ServerConfig::default();
    assert_eq!(c.stun_server, "0.0.0.0");
    assert_eq!(c.stun_port, 3478);
    assert_eq!(c.turn_username, "webrtc");
    assert_eq!(c.turn_password, "webrtc");
    assert_eq!(c.ws_port, 8080);
    assert!(c.sip_config.is_none());
    let s = types::SipConfig::default();
    assert_eq!(s.bind_address, "0.0.0.0");
    assert_eq!(s.port, 5060);
    assert_eq!(s.domain, "localhost");
}

#[test]
fn decimal_rendering() {
    assert_eq!(decimal_string(0), "0");
    assert_eq!(decimal_string(7), "7");
    assert_eq!(decimal_string(44200), "44200");
    assert_eq!(decimal_string(u64::MAX), "18446744073709551615");
}

#[test]
fn prefix_and_equality_helpers() {
    assert!(str_eq("abc", "abc"));
    assert!(!str_eq("abc", "abd"));
    assert!(has_prefix("temp_1234", "temp_"));
    assert!(!has_prefix("tem", "temp_"));
    assert!(!has_prefix("peer-1", "temp_"));
}

#[test]
fn temp_ids_name_no_peer() {
    assert_eq!(get_peer_id_from_temp("temp_550e8400"), None);
    assert_eq!(get_peer_id_from_temp("alice").as_deref(), Some("alice"));
}

#[test]
fn candidate_normalization() {
    // double-encoded payloads are decoded once
    assert_eq!(
        normalize_candidate("\"candidate:1 1 UDP 1 1.2.3.4 9 typ host\"".to_string()).as_deref(),
        Some("candidate:1 1 UDP 1 1.2.3.4 9 typ host")
    );
    // plain payloads pass through unchanged
    assert_eq!(
        normalize_candidate("candidate:1 1 UDP 1 1.2.3.4 9 typ host".to_string()).as_deref(),
        Some("candidate:1 1 UDP 1 1.2.3.4 9 typ host")
    );
    // a quoted payload that is not a JSON string is dropped
    assert_eq!(normalize_candidate("\"broken".to_string()), None);
}

#[test]
fn error_messages_carry_their_kind() {
    assert_eq!(
        Error::WebRTCError("x".to_string()).message(),
        "WebRTC error: x"
    );
    assert_eq!(
        Error::WebSocketError("x".to_string()).message(),
        "WebSocket error: x"
    );
    assert_eq!(
        Error::ConnectionError("x".to_string()).message(),
        "Connection error: x"
    );
    assert_eq!(
        Error::SerializationError("x".to_string()).message(),
        "Serialization error: x"
    );
    assert_eq!(
        Error::InvalidMessage("x".to_string()).message(),
        "Invalid message: x"
    );
    assert_eq!(Error::Room("full".to_string()).message(), "Room error: full");
    assert_eq!(Error::Peer("x".to_string()).message(), "Peer error: x");
    assert_eq!(Error::Media("x".to_string()).message(), "Media error: x");
    assert_eq!(Error::IO("x".to_string()).message(), "IO error: x");
    assert_eq!(Error::Turn("x".to_string()).message(), "TURN error: x");
    assert_eq!(
        Error::AddrParse("x".to_string()).message(),
        "Address parse error: x"
    );
    assert_eq!(Error::WarpError("x".to_string()).message(), "Warp error: x");
}

#[test]
fn get_peer_id_covers_every_variant() {
    type M = SignalingMessage;
    let cases: Vec<(M, Option<&str>)> = vec![
        (
            M::Join { room_id: "r".to_string(), peer_id: "p".to_string() },
            Some("p"),
        ),
        (
            M::Offer {
                room_id: "r".to_string(),
                sdp: "s".to_string(),
                from_peer: "f".to_string(),
                to_peer: "t".to_string(),
            },
            Some("f"),
        ),
        (M::RequestPeerList { room_id: "r".to_string() }, None),
        (
            M::PeerList { room_id: "r".to_string(), peers: vec![] },
            None,
        ),
        (
            M::ConnectionError {
                peer_id: "p".to_string(),
                error: "e".to_string(),
                should_retry: true,
            },
            Some("p"),
        ),
    ];
    for (msg, expected) in cases {
        assert_eq!(msg.get_peer_id().as_deref(), expected);
    }
}
