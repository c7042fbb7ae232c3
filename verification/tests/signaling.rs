//! End-to-end signaling scenarios against the router.

use webrtc_server::handler::{MessageHandler, OutboundMessage, RelayAction, SenderRef};
use webrtc_server::relay::MediaRelayManager;
use webrtc_server::types::SignalingMessage;

fn new_handler() -> MessageHandler {
    let relays = MediaRelayManager::new(
        "0.0.0.0".to_string(),
        3478,
        "0.0.0.0".to_string(),
        3478,
        "webrtc".to_string(),
        "webrtc".to_string(),
    );
    MessageHandler::new(relays)
}

fn peers_of(msg: &SignalingMessage) -> Vec<String> {
    match msg {
        SignalingMessage::PeerList { peers, .. } => peers.clone(),
        _ => panic!("expected a PeerList, got {:?}", msg),
    }
}

fn targets(out: &[OutboundMessage]) -> Vec<String> {
    out.iter().map(|o| o.to.clone()).collect()
}

#[test]
fn s1_join_leave() {
    let mut h = new_handler();
    h.set_websocket_sender("A".to_string(), SenderRef { token: 1 });
    let d1 = h.handle_message(
        SignalingMessage::Join { room_id: "r1".to_string(), peer_id: "A".to_string() },
        "A",
    );
    assert_eq!(targets(&d1.outbound), vec!["A".to_string()]);
    assert_eq!(peers_of(&d1.outbound[0].message), vec!["A".to_string()]);

    h.set_websocket_sender("B".to_string(), SenderRef { token: 2 });
    let d2 = h.handle_message(
        SignalingMessage::Join { room_id: "r1".to_string(), peer_id: "B".to_string() },
        "B",
    );
    assert_eq!(targets(&d2.outbound), vec!["A".to_string(), "B".to_string()]);
    for o in &d2.outbound {
        assert_eq!(peers_of(&o.message), vec!["A".to_string(), "B".to_string()]);
    }

    let d3 = h.handle_message(
        SignalingMessage::Disconnect { room_id: "r1".to_string(), peer_id: "B".to_string() },
        "B",
    );
    assert_eq!(targets(&d3.outbound), vec!["A".to_string()]);
    assert_eq!(peers_of(&d3.outbound[0].message), vec!["A".to_string()]);
}

#[test]
fn s2_offer_answer() {
    let mut h = new_handler();
    let _ = h.handle_join("r1", "A");
    let _ = h.handle_join("r1", "B");
    let d = h.handle_message(
        SignalingMessage::Offer {
            room_id: "r1".to_string(),
            sdp: "v=0 offer".to_string(),
            from_peer: "A".to_string(),
            to_peer: "B".to_string(),
        },
        "A",
    );
    assert!(d.outbound.is_empty());
    assert_eq!(d.actions.len(), 2);
    assert!(matches!(
        &d.actions[0],
        RelayAction::SetRemoteDescription { peer_id, sdp }
            if peer_id == "B" && sdp == "v=0 offer"
    ));
    assert!(matches!(
        &d.actions[1],
        RelayAction::CreateAnswer { peer_id } if peer_id == "B"
    ));

    // the transport produced B's answer; it goes back to A exactly once
    let d2 = h.handle_answer_created(
        "r1".to_string(),
        "A".to_string(),
        "B".to_string(),
        "v=0 answer (complete)".to_string(),
    );
    assert_eq!(d2.outbound.len(), 1);
    assert_eq!(d2.outbound[0].to, "A");
    match &d2.outbound[0].message {
        SignalingMessage::Answer { room_id, sdp, from_peer, to_peer } => {
            assert_eq!(room_id, "r1");
            assert_eq!(sdp, "v=0 answer (complete)");
            assert_eq!(from_peer, "B");
            assert_eq!(to_peer, "A");
        },
        other => panic!("expected an Answer, got {:?}", other),
    }
}

#[test]
fn s3_ice_before_sdp() {
    let mut h = new_handler();
    h.set_websocket_sender("A".to_string(), SenderRef { token: 1 });
    h.set_websocket_sender("B".to_string(), SenderRef { token: 2 });
    let _ = h.handle_join("r1", "A");
    let _ = h.handle_join("r1", "B");

    let d = h.handle_ice_candidate(
        "r1".to_string(),
        "A".to_string(),
        "B".to_string(),
        "candidate:1 1 UDP 2122252543 10.0.0.1 50000 typ host".to_string(),
    );
    // forwarded to B's session, but buffered on B's relay: no apply yet
    assert_eq!(d.outbound.len(), 1);
    assert_eq!(d.outbound[0].to, "B");
    assert!(d.actions.is_empty());

    // once B's remote description is set, the candidate is applied, in
    // order, before the answer is created
    let d2 = h.handle_offer(
        "r1".to_string(),
        "A".to_string(),
        "B".to_string(),
        "v=0 offer".to_string(),
    );
    assert_eq!(d2.actions.len(), 3);
    assert!(matches!(&d2.actions[0], RelayAction::SetRemoteDescription { .. }));
    assert!(matches!(
        &d2.actions[1],
        RelayAction::ApplyIceCandidate { peer_id, candidate }
            if peer_id == "B" && candidate == "candidate:1 1 UDP 2122252543 10.0.0.1 50000 typ host"
    ));
    assert!(matches!(&d2.actions[2], RelayAction::CreateAnswer { .. }));
}

#[test]
fn s4_room_full() {
    let mut h = new_handler();
    // fill the room to its default capacity of ten
    for i in 0..10 {
        let name = format!("peer{}", i);
        h.set_websocket_sender(name.clone(), SenderRef { token: i });
        let d = h.handle_join("r1", name.as_str());
        assert_eq!(d.outbound.len(), (i + 1) as usize);
    }
    h.set_websocket_sender("C".to_string(), SenderRef { token: 99 });
    let d = h.handle_join("r1", "C");
    // the joiner is refused and nobody else hears about it
    assert_eq!(d.outbound.len(), 1);
    assert_eq!(d.outbound[0].to, "C");
    match &d.outbound[0].message {
        SignalingMessage::MediaError { error_type, peer_id, .. } => {
            assert_eq!(error_type, "room_full");
            assert_eq!(peer_id, "C");
        },
        other => panic!("expected a MediaError, got {:?}", other),
    }
    assert!(d.actions.is_empty());
}

#[test]
fn s5_heartbeat_failure() {
    let mut h = new_handler();
    h.set_websocket_sender("A".to_string(), SenderRef { token: 1 });
    h.set_websocket_sender("B".to_string(), SenderRef { token: 2 });
    let _ = h.handle_join("r1", "A");
    let _ = h.handle_join("r1", "B");

    // the liveness check reports A's socket as dead
    let dispatches = h.validate_connections(&vec!["A".to_string()]);
    assert_eq!(dispatches.len(), 1);
    let d = &dispatches[0];
    assert_eq!(targets(&d.outbound), vec!["B".to_string()]);
    assert_eq!(peers_of(&d.outbound[0].message), vec!["B".to_string()]);
    assert!(h.get_peer_room("A").is_none());
    assert!(h.get_websocket_sender("A").is_none());
}

#[test]
fn idempotent_disconnect() {
    let mut h = new_handler();
    let _ = h.handle_join("r1", "A");
    let _ = h.handle_join("r1", "B");
    let d1 = h.handle_disconnect("B", "r1");
    assert_eq!(targets(&d1.outbound), vec!["A".to_string()]);
    // running the same disconnect again changes nothing
    let d2 = h.handle_disconnect("B", "r1");
    assert_eq!(targets(&d2.outbound), vec!["A".to_string()]);
    assert!(h.get_peer_room("B").is_none());
    let d3 = h.handle_peer_list_request("r1".to_string(), "A");
    assert_eq!(peers_of(&d3.outbound[0].message), vec!["A".to_string()]);
}

#[test]
fn empty_room_is_destroyed_and_reusable() {
    let mut h = new_handler();
    let _ = h.handle_join("r1", "A");
    let _ = h.handle_disconnect("A", "r1");
    // the last peer left, so the room is gone and its name is free
    let d = h.handle_peer_list_request("r1".to_string(), "B");
    assert!(peers_of(&d.outbound[0].message).is_empty());
    let d2 = h.handle_join("r1", "B");
    assert_eq!(targets(&d2.outbound), vec!["B".to_string()]);
    assert_eq!(peers_of(&d2.outbound[0].message), vec!["B".to_string()]);
}

#[test]
fn rebinding_a_sender_replaces_it() {
    let mut h = new_handler();
    h.set_websocket_sender("A".to_string(), SenderRef { token: 1 });
    h.set_websocket_sender("A".to_string(), SenderRef { token: 2 });
    assert_eq!(h.get_websocket_sender("A"), Some(SenderRef { token: 2 }));
    h.remove_websocket_sender("A");
    assert!(h.get_websocket_sender("A").is_none());
}

#[test]
fn registry_coherence_after_churn() {
    let mut h = new_handler();
    for name in ["A", "B", "C"] {
        h.set_websocket_sender(name.to_string(), SenderRef { token: 7 });
        let _ = h.handle_join("r2", name);
    }
    let _ = h.handle_disconnect("B", "r2");
    // every remaining member still has a relay and the right index
    for name in ["A", "C"] {
        assert_eq!(h.get_peer_room(name).as_deref(), Some("r2"));
        assert!(h.relay_manager.get_relay(name).is_some());
    }
    assert!(h.relay_manager.get_relay("B").is_none());
    let d = h.handle_peer_list_request("r2".to_string(), "A");
    assert_eq!(peers_of(&d.outbound[0].message), vec!["A".to_string(), "C".to_string()]);
}

#[test]
fn broadcast_completeness_after_join() {
    let mut h = new_handler();
    h.set_websocket_sender("A".to_string(), SenderRef { token: 1 });
    h.set_websocket_sender("B".to_string(), SenderRef { token: 2 });
    h.set_websocket_sender("C".to_string(), SenderRef { token: 3 });
    let _ = h.handle_join("room", "A");
    let _ = h.handle_join("room", "B");
    let d = h.handle_join("room", "C");
    // exactly one PeerList per member, all carrying the full membership
    assert_eq!(
        targets(&d.outbound),
        vec!["A".to_string(), "B".to_string(), "C".to_string()]
    );
    for o in &d.outbound {
        assert_eq!(
            peers_of(&o.message),
            vec!["A".to_string(), "B".to_string(), "C".to_string()]
        );
    }
}

#[test]
fn request_peer_list_answers_requester_only() {
    let mut h = new_handler();
    let _ = h.handle_join("r1", "A");
    let _ = h.handle_join("r1", "B");
    let d = h.handle_message(
        SignalingMessage::RequestPeerList { room_id: "r1".to_string() },
        "B",
    );
    assert_eq!(targets(&d.outbound), vec!["B".to_string()]);
    assert_eq!(peers_of(&d.outbound[0].message), vec!["A".to_string(), "B".to_string()]);
}

#[test]
fn call_request_forwarded_per_target() {
    let mut h = new_handler();
    h.set_websocket_sender("B".to_string(), SenderRef { token: 2 });
    h.set_websocket_sender("C".to_string(), SenderRef { token: 3 });
    let d = h.handle_message(
        SignalingMessage::CallRequest {
            room_id: "r1".to_string(),
            from_peer: "A".to_string(),
            to_peers: vec!["B".to_string(), "C".to_string(), "ghost".to_string()],
            sdp: "v=0".to_string(),
        },
        "A",
    );
    // only registered targets are reached, one frame each
    assert_eq!(targets(&d.outbound), vec!["B".to_string(), "C".to_string()]);
    match &d.outbound[0].message {
        SignalingMessage::CallRequest { to_peers, from_peer, .. } => {
            assert_eq!(to_peers, &vec!["B".to_string()]);
            assert_eq!(from_peer, "A");
        },
        other => panic!("expected a CallRequest, got {:?}", other),
    }
}

#[test]
fn inbound_server_frames_are_dropped() {
    let mut h = new_handler();
    let d = h.handle_message(
        SignalingMessage::PeerList { room_id: "r1".to_string(), peers: vec![] },
        "A",
    );
    assert!(d.outbound.is_empty());
    assert!(d.actions.is_empty());
}

#[test]
fn call_response_forwarded_to_target() {
    let mut h = new_handler();
    h.set_websocket_sender("A".to_string(), SenderRef { token: 1 });
    let d = h.handle_message(
        SignalingMessage::CallResponse {
            room_id: "r1".to_string(),
            from_peer: "B".to_string(),
            to_peer: "A".to_string(),
            accepted: true,
            reason: None,
            sdp: Some("v=0".to_string()),
        },
        "B",
    );
    assert_eq!(targets(&d.outbound), vec!["A".to_string()]);
    match &d.outbound[0].message {
        SignalingMessage::CallResponse { from_peer, accepted, sdp, .. } => {
            assert_eq!(from_peer, "B");
            assert!(*accepted);
            assert_eq!(sdp.as_deref(), Some("v=0"));
        },
        other => panic!("expected a CallResponse, got {:?}", other),
    }
}

#[test]
fn broadcast_message_reaches_the_room_only() {
    let mut h = new_handler();
    h.set_websocket_sender("A".to_string(), SenderRef { token: 1 });
    h.set_websocket_sender("B".to_string(), SenderRef { token: 2 });
    h.set_websocket_sender("C".to_string(), SenderRef { token: 3 });
    let _ = h.handle_join("r1", "A");
    let _ = h.handle_join("r1", "B");
    let _ = h.handle_join("r2", "C");
    let msg = SignalingMessage::PeerList {
        room_id: "r1".to_string(),
        peers: vec!["A".to_string(), "B".to_string()],
    };
    let out = h.broadcast_message(&msg);
    assert_eq!(targets(&out), vec!["A".to_string(), "B".to_string()]);
    // anything but a peer list broadcasts to nobody
    let none = h.broadcast_message(&SignalingMessage::RequestPeerList {
        room_id: "r1".to_string(),
    });
    assert!(none.is_empty());
}

#[test]
fn default_message_is_an_empty_peer_list() {
    let msg = SignalingMessage::default();
    match msg {
        SignalingMessage::PeerList { room_id, peers } => {
            assert!(room_id.is_empty());
            assert!(peers.is_empty());
        },
        other => panic!("expected a PeerList, got {:?}", other),
    }
}

#[test]
fn double_encoded_candidate_is_decoded() {
    let mut h = new_handler();
    h.set_websocket_sender("B".to_string(), SenderRef { token: 2 });
    let _ = h.handle_join("r1", "A");
    let _ = h.handle_join("r1", "B");
    let d = h.handle_ice_candidate(
        "r1".to_string(),
        "A".to_string(),
        "B".to_string(),
        "\"candidate:7 1 UDP 1 10.0.0.2 4242 typ host\"".to_string(),
    );
    assert_eq!(d.outbound.len(), 1);
    match &d.outbound[0].message {
        SignalingMessage::IceCandidate { candidate, .. } => {
            assert_eq!(candidate, "candidate:7 1 UDP 1 10.0.0.2 4242 typ host");
        },
        other => panic!("expected an IceCandidate, got {:?}", other),
    }
}
