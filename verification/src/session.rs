//! Per-socket session lifecycle: from an anonymous temporary id to a
//! named peer, and the disconnect synthesized when the socket dies.

use vstd::prelude::*;
use vstd::string::*;
use crate::connection_state::{ConnectionState, ConnectionStateManager};
use crate::strutil::{spec_has_prefix, has_prefix};
use crate::types::SignalingMessage;

verus! {

/// What the socket loop observed.
pub enum SessionEvent {
    Text(SignalingMessage),
    ParseFailure,
    CloseFrame,
    ReadError,
}

/// What the session decides to do with an event.
pub enum SessionStep {
    /// Route the message; `rebind` asks the transport to re-register
    /// the send handle under the joining peer's id and drop the
    /// temporary one.
    Dispatch { rebind: Option<String>, message: SignalingMessage },
    /// Run the disconnect path for the given peer and room.
    Disconnect { peer_id: String, room_id: String },
    /// Nothing to do: a parse failure, or a socket that never joined.
    Ignore,
}

/// One WebSocket's signaling session.
pub struct SignalingSession {
    pub temp_id: String,
    pub current_peer_id: String,
    pub current_room_id: String,
}

impl SignalingSession {
    /// The session has bound itself to a peer in a room.
    pub open spec fn spec_joined(&self) -> bool {
        self.current_peer_id@ != self.temp_id@ && self.current_room_id@.len() > 0
    }

    /// A fresh session speaks for its temporary id until a `Join`.
    pub fn new(temp_id: String) -> (r: Self)
        ensures
            r.temp_id@ == temp_id@,
            r.current_peer_id@ == temp_id@,
            r.current_room_id@ == Seq::<char>::empty(),
            !r.spec_joined(),
    {
        let current = temp_id.clone();
        SignalingSession { temp_id, current_peer_id: current, current_room_id: String::new() }
    }

    /// Decides what to do with one socket event: a `Join` rebinds the
    /// session to the joining peer before dispatch, any other text is
    /// dispatched as-is, a parse failure is dropped, and a close or
    /// read error synthesizes a disconnect for a session that joined.
    pub fn on_event(&mut self, event: SessionEvent) -> (r: SessionStep)
        ensures
            (event matches SessionEvent::Text(msg) ==> {
                &&& (msg matches SignalingMessage::Join { room_id, peer_id }
                    ==> final(self).current_peer_id@ == peer_id@
                    && final(self).current_room_id@ == room_id@ && (
                r matches SessionStep::Dispatch { rebind, message } && (rebind matches Some(b)
                    && b@ == peer_id@) && message == msg))
                &&& (!(msg is Join) ==> *final(self) == *old(self) && (r matches
                SessionStep::Dispatch { rebind, message } && rebind is None && message == msg))
            }),
            (event is ParseFailure ==> *final(self) == *old(self) && r is Ignore),
            ((event is CloseFrame || event is ReadError) ==> *final(self) == *old(self)
                && (if old(self).spec_joined() {
                r matches SessionStep::Disconnect { peer_id, room_id }
                    && peer_id@ == old(self).current_peer_id@
                    && room_id@ == old(self).current_room_id@
            } else {
                r is Ignore
            })),
            final(self).temp_id@ == old(self).temp_id@,
    {
        match event {
            SessionEvent::Text(msg) => {
                let rebind: Option<String> = match &msg {
                    SignalingMessage::Join { room_id, peer_id } => {
                        self.current_peer_id = peer_id.clone();
                        self.current_room_id = room_id.clone();
                        Some(peer_id.clone())
                    },
                    _ => None,
                };
                SessionStep::Dispatch { rebind, message: msg }
            },
            SessionEvent::ParseFailure => SessionStep::Ignore,
            SessionEvent::CloseFrame => self.teardown_step(),
            SessionEvent::ReadError => self.teardown_step(),
        }
    }

    /// The step a dying socket leaves behind: a disconnect for a
    /// session that joined, nothing otherwise.
    pub fn teardown_step(&self) -> (r: SessionStep)
        ensures
            if self.spec_joined() {
                r matches SessionStep::Disconnect { peer_id, room_id } && peer_id@
                    == self.current_peer_id@ && room_id@ == self.current_room_id@
            } else {
                r is Ignore
            },
    {
        let bound = !crate::strutil::str_eq(self.current_peer_id.as_str(), self.temp_id.as_str());
        if bound && !self.current_room_id.as_str().is_empty() {
            SessionStep::Disconnect {
                peer_id: self.current_peer_id.clone(),
                room_id: self.current_room_id.clone(),
            }
        } else {
            SessionStep::Ignore
        }
    }
}

/// A peer id recovered from a registration key: a key still carrying
/// the temporary prefix names no peer.
pub fn get_peer_id_from_temp(temp_id: &str) -> (r: Option<String>)
    ensures
        spec_has_prefix(temp_id@, "temp_"@) ==> r is None,
        !spec_has_prefix(temp_id@, "temp_"@) ==> (r matches Some(p) && p@ == temp_id@),
{
    if has_prefix(temp_id, "temp_") {
        None
    } else {
        Some(temp_id.to_owned())
    }
}

/// Decides how to react to a connection error, as the recovery policy
/// prescribes: a connected peer is asked to retry, any other known peer
/// is failed and told not to; the state machine accepts or rejects the
/// accompanying transition by its own table.
pub fn handle_connection_error(
    states: &mut ConnectionStateManager,
    peer_id: &str,
    error_text: String,
    timestamp: u64,
) -> (r: Option<SignalingMessage>)
    requires
        old(states).wf(),
    ensures
        final(states).wf(),
        old(states).spec_state(peer_id@) is None ==> r is None && final(states).states_view()
            == old(states).states_view(),
        old(states).spec_state(peer_id@) == Some(ConnectionState::Connected) ==> (r matches Some(
            m,
        ) && (m matches SignalingMessage::ConnectionError { peer_id: pid, error, should_retry }
            && pid@ == peer_id@ && error@ == error_text@ && should_retry)),
        (old(states).spec_state(peer_id@) matches Some(s) && s != ConnectionState::Connected)
            ==> (r matches Some(m) && (m matches SignalingMessage::ConnectionError {
            peer_id: pid,
            error,
            should_retry,
        } && pid@ == peer_id@ && error@ == error_text@ && !should_retry)),
{
    match states.get_state(peer_id) {
        Some(ConnectionState::Connected) => {
            // the table has no recovery edge out of Connected, so this
            // attempt is rejected and the state is kept
            let _ = states.transition(peer_id, ConnectionState::WaitingForOffer, timestamp);
            Some(
                SignalingMessage::ConnectionError {
                    peer_id: peer_id.to_owned(),
                    error: error_text,
                    should_retry: true,
                },
            )
        },
        Some(_) => {
            let _ = states.transition(peer_id, ConnectionState::Failed, timestamp);
            Some(
                SignalingMessage::ConnectionError {
                    peer_id: peer_id.to_owned(),
                    error: error_text,
                    should_retry: false,
                },
            )
        },
        None => None,
    }
}

} // verus!
