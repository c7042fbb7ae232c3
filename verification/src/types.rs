//! Wire-level message types and server configuration.

use vstd::prelude::*;
use vstd::string::*;

verus! {

/// The views of a sequence of strings.
pub open spec fn views_of(s: Seq<String>) -> Seq<Seq<char>> {
    Seq::new(s.len(), |i: int| s[i]@)
}

/// A copy of a string vector with the same contents.
pub fn clone_strings(v: &Vec<String>) -> (r: Vec<String>)
    ensures
        views_of(r@) == views_of(v@),
{
    let n = v.len();
    let mut r: Vec<String> = Vec::new();
    let mut i: usize = 0;
    while i < n
        invariant
            n == v@.len(),
            i <= n,
            r@.len() == i,
            forall|j: int| 0 <= j < i ==> #[trigger] r@[j]@ == v@[j]@,
        decreases n - i,
    {
        r.push(v[i].clone());
        i = i + 1;
    }
    proof {
        assert(views_of(r@) =~= views_of(v@));
    }
    r
}

/// A signaling frame, tagged by its `message_type` on the wire.
#[derive(Debug, Clone)]
pub enum SignalingMessage {
    CallRequest { room_id: String, from_peer: String, to_peers: Vec<String>, sdp: String },
    CallResponse {
        room_id: String,
        from_peer: String,
        to_peer: String,
        accepted: bool,
        reason: Option<String>,
        sdp: Option<String>,
    },
    Join { room_id: String, peer_id: String },
    RequestPeerList { room_id: String },
    PeerList { room_id: String, peers: Vec<String> },
    Disconnect { room_id: String, peer_id: String },
    Offer { room_id: String, sdp: String, from_peer: String, to_peer: String },
    Answer { room_id: String, sdp: String, from_peer: String, to_peer: String },
    IceCandidate { room_id: String, candidate: String, from_peer: String, to_peer: String },
    MediaError { error_type: String, description: String, peer_id: String },
    EndCall { room_id: String, peer_id: String },
    PeerDisconnected { room_id: String, peer_id: String },
    ConnectionError { peer_id: String, error: String, should_retry: bool },
}

/// The peer a message speaks for: the sender for peer-originated
/// messages, the subject for peer-addressed ones, and nothing for
/// peer-list traffic.
pub open spec fn spec_get_peer_id(msg: &SignalingMessage) -> Option<Seq<char>> {
    match msg {
        SignalingMessage::Join { peer_id, .. } => Some(peer_id@),
        SignalingMessage::Disconnect { peer_id, .. } => Some(peer_id@),
        SignalingMessage::CallRequest { from_peer, .. } => Some(from_peer@),
        SignalingMessage::CallResponse { from_peer, .. } => Some(from_peer@),
        SignalingMessage::Offer { from_peer, .. } => Some(from_peer@),
        SignalingMessage::Answer { from_peer, .. } => Some(from_peer@),
        SignalingMessage::IceCandidate { from_peer, .. } => Some(from_peer@),
        SignalingMessage::MediaError { peer_id, .. } => Some(peer_id@),
        SignalingMessage::EndCall { peer_id, .. } => Some(peer_id@),
        SignalingMessage::PeerDisconnected { peer_id, .. } => Some(peer_id@),
        SignalingMessage::ConnectionError { peer_id, .. } => Some(peer_id@),
        SignalingMessage::PeerList { .. } => None,
        SignalingMessage::RequestPeerList { .. } => None,
    }
}

impl SignalingMessage {
    pub fn get_peer_id(&self) -> (r: Option<String>)
        ensures
            match r {
                Some(p) => spec_get_peer_id(self) == Some(p@),
                None => spec_get_peer_id(self) is None,
            },
    {
        match self {
            SignalingMessage::Join { peer_id, .. } => Some(peer_id.clone()),
            SignalingMessage::Disconnect { peer_id, .. } => Some(peer_id.clone()),
            SignalingMessage::CallRequest { from_peer, .. } => Some(from_peer.clone()),
            SignalingMessage::CallResponse { from_peer, .. } => Some(from_peer.clone()),
            SignalingMessage::Offer { from_peer, .. } => Some(from_peer.clone()),
            SignalingMessage::Answer { from_peer, .. } => Some(from_peer.clone()),
            SignalingMessage::IceCandidate { from_peer, .. } => Some(from_peer.clone()),
            SignalingMessage::MediaError { peer_id, .. } => Some(peer_id.clone()),
            SignalingMessage::EndCall { peer_id, .. } => Some(peer_id.clone()),
            SignalingMessage::PeerDisconnected { peer_id, .. } => Some(peer_id.clone()),
            SignalingMessage::ConnectionError { peer_id, .. } => Some(peer_id.clone()),
            SignalingMessage::PeerList { .. } => None,
            SignalingMessage::RequestPeerList { .. } => None,
        }
    }
}

impl Default for SignalingMessage {
    /// An empty peer list, as the original protocol's neutral value.
    fn default() -> (r: Self)
        ensures
            r is PeerList,
            r matches SignalingMessage::PeerList { room_id, peers } ==> room_id@ == Seq::<
                char,
            >::empty() && peers@ == Seq::<String>::empty(),
    {
        SignalingMessage::PeerList { peers: Vec::new(), room_id: String::new() }
    }
}

/// Static TURN credentials handed to clients over HTTP.
#[derive(Debug, Clone)]
pub struct TurnCredentials {
    pub stun_server: String,
    pub stun_port: u16,
    pub turn_server: String,
    pub turn_port: u16,
    pub username: String,
    pub password: String,
}

impl TurnCredentials {
    /// Credentials that point STUN and TURN at the same host and carry
    /// the shared secret as password.
    pub fn new(server: String, port: u16, secret: &str) -> (r: Self)
        ensures
            r.stun_server@ == server@,
            r.stun_port == port,
            r.turn_server@ == server@,
            r.turn_port == port,
            r.username@ == "user"@,
            r.password@ == secret@,
    {
        let stun_server = server.clone();
        TurnCredentials {
            stun_server,
            stun_port: port,
            turn_server: server,
            turn_port: port,
            username: String::from_str("user"),
            password: secret.to_owned(),
        }
    }
}

/// Optional SIP gateway configuration.
#[derive(Debug, Clone)]
pub struct SipConfig {
    pub bind_address: String,
    pub port: u16,
    pub domain: String,
}

impl Default for SipConfig {
    /// The documented defaults for an unset environment.
    fn default() -> (r: Self)
        ensures
            r.bind_address@ == "0.0.0.0"@,
            r.port == 5060,
            r.domain@ == "localhost"@,
    {
        SipConfig {
            bind_address: String::from_str("0.0.0.0"),
            port: 5060,
            domain: String::from_str("localhost"),
        }
    }
}

/// Server configuration; the environment-reading shell fills it in and
/// falls back to these defaults.
#[derive(Debug, Clone)]
pub struct ServerConfig {
    pub stun_server: String,
    pub stun_port: u16,
    pub turn_server: String,
    pub turn_port: u16,
    pub turn_username: String,
    pub turn_password: String,
    pub ws_port: u16,
    pub recording_path: Option<String>,
    pub sip_config: Option<SipConfig>,
}

impl Default for ServerConfig {
    /// The documented defaults for an unset environment.
    fn default() -> (r: Self)
        ensures
            r.stun_server@ == "0.0.0.0"@,
            r.stun_port == 3478,
            r.turn_server@ == "0.0.0.0"@,
            r.turn_port == 3478,
            r.turn_username@ == "webrtc"@,
            r.turn_password@ == "webrtc"@,
            r.ws_port == 8080,
            r.recording_path is None,
            r.sip_config is None,
    {
        ServerConfig {
            stun_server: String::from_str("0.0.0.0"),
            stun_port: 3478,
            turn_server: String::from_str("0.0.0.0"),
            turn_port: 3478,
            turn_username: String::from_str("webrtc"),
            turn_password: String::from_str("webrtc"),
            ws_port: 8080,
            recording_path: None,
            sip_config: None,
        }
    }
}

/// A record of one recorded call: timestamps are seconds since the Unix
/// epoch.
#[derive(Debug, Clone)]
pub struct CallMetadata {
    pub room_id: String,
    pub start_time: u64,
    pub end_time: Option<u64>,
    pub participants: Vec<String>,
    pub recording_path: Option<String>,
}

} // verus!
