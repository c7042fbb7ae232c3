//! The message router: the semantics of each signaling message over the
//! room, relay, sender, and peer-to-room registries.
//!
//! Every handler is a pure decision step: it mutates the registries and
//! returns the frames to send and the peer-connection actions to
//! perform.  The transport performs them and feeds results back.

use vstd::prelude::*;
use vstd::string::*;
use crate::assoc::{AssocVec, assoc_has_key, assoc_value, assoc_idx, assoc_insert, assoc_remove,
    unique_keys, lemma_assoc_idx, lemma_assoc_idx_unique, lemma_assoc_insert_props,
    lemma_assoc_remove_props};
use crate::relay::{MediaRelayManager, RelayView, spec_new_relay, spec_add_ice, spec_set_remote};
use crate::room::{RoomManager, RoomView, spec_new_room, spec_room_wf, spec_remove_id,
    lemma_remove_id_unique, lemma_remove_id_absent};
use crate::strutil::str_eq;
use crate::types::{SignalingMessage, views_of, clone_strings};
use crate::wire::{normalize_candidate, spec_normalize_candidate};

verus! {

/// The transport's token for one registered WebSocket send handle.
#[derive(Debug, Clone, Copy, PartialEq, Eq, Structural)]
pub struct SenderRef {
    pub token: u64,
}

impl View for SenderRef {
    type V = u64;

    open spec fn view(&self) -> u64 {
        self.token
    }
}

/// One frame to deliver to one peer's socket.
#[derive(Debug, Clone)]
pub struct OutboundMessage {
    pub to: String,
    pub message: SignalingMessage,
}

/// One peer-connection operation for the media stack to perform.
#[derive(Debug, Clone)]
pub enum RelayAction {
    CreatePeerConnection { peer_id: String },
    ClosePeerConnection { peer_id: String },
    ApplyIceCandidate { peer_id: String, candidate: String },
    SetRemoteDescription { peer_id: String, sdp: String },
    CreateAnswer { peer_id: String },
}

/// What one routing step asks of the transport.
#[derive(Debug)]
pub struct Dispatch {
    pub outbound: Vec<OutboundMessage>,
    pub actions: Vec<RelayAction>,
}

impl Dispatch {
    fn empty() -> (r: Dispatch)
        ensures
            r.outbound@ == Seq::<OutboundMessage>::empty(),
            r.actions@ == Seq::<RelayAction>::empty(),
    {
        let r = Dispatch { outbound: Vec::new(), actions: Vec::new() };
        proof {
            assert(r.outbound@ =~= Seq::<OutboundMessage>::empty());
            assert(r.actions@ =~= Seq::<RelayAction>::empty());
        }
        r
    }
}

/// The observable state of the router's four registries.
#[verifier::ext_equal]
pub ghost struct HandlerView {
    pub relays: Seq<(Seq<char>, RelayView)>,
    pub rooms: Seq<(Seq<char>, RoomView)>,
    pub senders: Seq<(Seq<char>, u64)>,
    pub peer_rooms: Seq<(Seq<char>, Seq<char>)>,
}

/// Registry coherence: unique keys everywhere; every peer listed in a
/// room has a relay and is indexed to exactly that room; every indexed
/// peer is listed in its room; rooms are well formed and carry their
/// key as id.
pub open spec fn handler_wf(v: HandlerView) -> bool {
    &&& unique_keys(v.relays)
    &&& unique_keys(v.rooms)
    &&& unique_keys(v.senders)
    &&& unique_keys(v.peer_rooms)
    &&& forall|r: Seq<char>|
        #[trigger] assoc_has_key(v.rooms, r) ==> assoc_value(v.rooms, r).id == r && spec_room_wf(
            assoc_value(v.rooms, r),
        ) && assoc_value(v.rooms, r).peers.len() > 0
    &&& forall|r: Seq<char>, p: Seq<char>|
        assoc_has_key(v.rooms, r) && #[trigger] assoc_value(v.rooms, r).peers.contains(p)
            ==> assoc_has_key(v.relays, p) && assoc_has_key(v.peer_rooms, p) && assoc_value(
            v.peer_rooms,
            p,
        ) == r
    &&& forall|p: Seq<char>|
        #[trigger] assoc_has_key(v.peer_rooms, p) ==> assoc_has_key(
            v.rooms,
            assoc_value(v.peer_rooms, p),
        ) && assoc_value(v.rooms, assoc_value(v.peer_rooms, p)).peers.contains(p)
}

/// Exactly one `PeerList` frame per member, in membership order, each
/// carrying the full membership.
pub open spec fn spec_peer_list_broadcast(
    out: Seq<OutboundMessage>,
    room_id: Seq<char>,
    members: Seq<Seq<char>>,
) -> bool {
    &&& out.len() == members.len()
    &&& forall|i: int|
        0 <= i < out.len() ==> (#[trigger] out[i]).to@ == members[i]
            && (out[i].message matches SignalingMessage::PeerList { room_id: rid, peers } && rid@
            == room_id && views_of(peers@) == members)
}

/// Delivery is exactly-once: in a broadcast over distinct members, a
/// member is addressed by exactly one frame and anyone else by none.
pub proof fn lemma_broadcast_exactly_once(
    out: Seq<OutboundMessage>,
    room_id: Seq<char>,
    members: Seq<Seq<char>>,
    p: Seq<char>,
)
    requires
        spec_peer_list_broadcast(out, room_id, members),
        forall|i: int, j: int| 0 <= i < j < members.len() ==> members[i] != members[j],
    ensures
        members.contains(p) ==> crate::seqs::count_matching(
            out,
            |o: OutboundMessage| o.to@ == p,
        ) == 1,
        !members.contains(p) ==> crate::seqs::count_matching(
            out,
            |o: OutboundMessage| o.to@ == p,
        ) == 0,
{
    lemma_targets_count(out, members, p);
}

/// A frame list addressed along a duplicate-free member list hits each
/// member once and nobody else.
proof fn lemma_targets_count(out: Seq<OutboundMessage>, members: Seq<Seq<char>>, p: Seq<char>)
    requires
        out.len() == members.len(),
        forall|i: int| 0 <= i < out.len() ==> (#[trigger] out[i]).to@ == members[i],
        forall|i: int, j: int| 0 <= i < j < members.len() ==> members[i] != members[j],
    ensures
        crate::seqs::count_matching(out, |o: OutboundMessage| o.to@ == p) == if members.contains(
            p,
        ) {
            1nat
        } else {
            0nat
        },
    decreases members.len(),
{
    let f = |o: OutboundMessage| o.to@ == p;
    if members.len() == 0 {
        assert(!members.contains(p));
    } else {
        let out1 = out.drop_last();
        let m1 = members.drop_last();
        assert(forall|i: int| 0 <= i < out1.len() ==> (#[trigger] out1[i]).to@ == m1[i]);
        lemma_targets_count(out1, m1, p);
        assert(out.last().to@ == members.last());
        if members.last() == p {
            assert(!m1.contains(p)) by {
                if m1.contains(p) {
                    let w = choose|w: int| 0 <= w < m1.len() && m1[w] == p;
                    assert(members[w] == p && members[members.len() - 1] == p);
                }
            }
            assert(members.contains(p)) by {
                assert(members[members.len() - 1] == p);
            }
        } else {
            assert(members.contains(p) == m1.contains(p)) by {
                if m1.contains(p) {
                    let w = choose|w: int| 0 <= w < m1.len() && m1[w] == p;
                    assert(members[w] == p);
                }
                if members.contains(p) {
                    let w = choose|w: int| 0 <= w < members.len() && members[w] == p;
                    assert(w < members.len() - 1);
                    assert(m1[w] == p);
                }
            }
        }
    }
}

/// The router.  It owns the registries; the transport owns the sockets
/// and peer connections.
pub struct MessageHandler {
    pub relay_manager: MediaRelayManager,
    pub rooms: RoomManager,
    pub websocket_senders: AssocVec<SenderRef>,
    pub peer_rooms: AssocVec<String>,
}

impl View for MessageHandler {
    type V = HandlerView;

    open spec fn view(&self) -> HandlerView {
        HandlerView {
            relays: self.relay_manager.relays@,
            rooms: self.rooms.rooms@,
            senders: self.websocket_senders@,
            peer_rooms: self.peer_rooms@,
        }
    }
}

impl MessageHandler {
    pub open spec fn wf(&self) -> bool {
        handler_wf(self@)
    }

    /// A router over the given relay registry; all other registries
    /// start empty.
    pub fn new(relay_manager: MediaRelayManager) -> (r: Self)
        requires
            relay_manager.wf(),
            relay_manager.relays_view() == Seq::<(Seq<char>, RelayView)>::empty(),
        ensures
            r.wf(),
            r@.relays == Seq::<(Seq<char>, RelayView)>::empty(),
            r@.rooms == Seq::<(Seq<char>, RoomView)>::empty(),
            r@.senders == Seq::<(Seq<char>, u64)>::empty(),
            r@.peer_rooms == Seq::<(Seq<char>, Seq<char>)>::empty(),
    {
        let r = MessageHandler {
            relay_manager,
            rooms: RoomManager::new(),
            websocket_senders: AssocVec::new(),
            peer_rooms: AssocVec::new(),
        };
        r
    }

    /// Registers (or rebinds) the send handle for `peer_id`.
    pub fn set_websocket_sender(&mut self, peer_id: String, sender: SenderRef)
        requires
            old(self).wf(),
        ensures
            final(self).wf(),
            final(self)@ == (HandlerView {
                senders: assoc_insert(old(self)@.senders, peer_id@, sender.token),
                ..old(self)@
            }),
    {
        self.websocket_senders.insert(peer_id, sender);
        proof {
            assert(self@ =~= (HandlerView { senders: self@.senders, ..old(self)@ }));
        }
    }

    /// Drops the send handle registered for `peer_id`, if any.
    pub fn remove_websocket_sender(&mut self, peer_id: &str)
        requires
            old(self).wf(),
        ensures
            final(self).wf(),
            final(self)@ == (HandlerView {
                senders: assoc_remove(old(self)@.senders, peer_id@),
                ..old(self)@
            }),
    {
        self.websocket_senders.remove(peer_id);
        proof {
            assert(self@ =~= (HandlerView { senders: self@.senders, ..old(self)@ }));
        }
    }

    /// The send handle registered for `peer_id`.
    pub fn get_websocket_sender(&self, peer_id: &str) -> (r: Option<SenderRef>)
        requires
            self.wf(),
        ensures
            match r {
                Some(s) => assoc_has_key(self@.senders, peer_id@) && s.token == assoc_value(
                    self@.senders,
                    peer_id@,
                ),
                None => !assoc_has_key(self@.senders, peer_id@),
            },
    {
        match self.websocket_senders.get(peer_id) {
            Some(s) => Some(*s),
            None => None,
        }
    }

    /// The room `peer_id` is indexed to, if any.
    pub fn get_peer_room(&self, peer_id: &str) -> (r: Option<String>)
        requires
            self.wf(),
        ensures
            match r {
                Some(rid) => assoc_has_key(self@.peer_rooms, peer_id@) && rid@ == assoc_value(
                    self@.peer_rooms,
                    peer_id@,
                ),
                None => !assoc_has_key(self@.peer_rooms, peer_id@),
            },
    {
        match self.peer_rooms.get(peer_id) {
            Some(r) => Some(r.clone()),
            None => None,
        }
    }
}

/// The joiner is already a member of this very room.
pub open spec fn spec_join_member(v: HandlerView, rid: Seq<char>, p: Seq<char>) -> bool {
    assoc_has_key(v.peer_rooms, p) && assoc_value(v.peer_rooms, p) == rid
}

/// The joiner is indexed to a different room; such a join is dropped,
/// since a peer lives in at most one room.
pub open spec fn spec_join_elsewhere(v: HandlerView, rid: Seq<char>, p: Seq<char>) -> bool {
    assoc_has_key(v.peer_rooms, p) && assoc_value(v.peer_rooms, p) != rid
}

/// The join must be refused: the room exists and is at capacity.
pub open spec fn spec_join_full(v: HandlerView, rid: Seq<char>, p: Seq<char>) -> bool {
    &&& !assoc_has_key(v.peer_rooms, p)
    &&& assoc_has_key(v.rooms, rid)
    &&& assoc_value(v.rooms, rid).peers.len() >= assoc_value(v.rooms, rid).max_participants
}

/// The join is admitted: the peer is new and the room has space (or
/// does not exist yet).
pub open spec fn spec_join_admit(v: HandlerView, rid: Seq<char>, p: Seq<char>) -> bool {
    !assoc_has_key(v.peer_rooms, p) && !spec_join_full(v, rid, p)
}

/// The registries after a `Join`: an admitted peer gets a fresh relay,
/// a listing in the room (created on first use), and a room index
/// entry; any other join leaves the state unchanged.
pub open spec fn spec_join(v: HandlerView, rid: Seq<char>, p: Seq<char>) -> HandlerView {
    if spec_join_admit(v, rid, p) {
        let rooms1 = if assoc_has_key(v.rooms, rid) {
            v.rooms
        } else {
            v.rooms.push((rid, spec_new_room(rid)))
        };
        let room1 = assoc_value(rooms1, rid);
        let rooms2 = assoc_insert(rooms1, rid, RoomView { peers: room1.peers.push(p), ..room1 });
        HandlerView {
            relays: assoc_insert(v.relays, p, spec_new_relay(p)),
            rooms: rooms2,
            senders: v.senders,
            peer_rooms: assoc_insert(v.peer_rooms, p, rid),
        }
    } else {
        v
    }
}

/// One `PeerList` frame per given member, all carrying the same
/// membership.
fn make_peer_list(room_id: &str, members: &Vec<String>) -> (out: Vec<OutboundMessage>)
    ensures
        spec_peer_list_broadcast(out@, room_id@, views_of(members@)),
{
    let n = members.len();
    let mut out: Vec<OutboundMessage> = Vec::new();
    let mut i: usize = 0;
    while i < n
        invariant
            n == members@.len(),
            i <= n,
            out@.len() == i,
            forall|j: int|
                0 <= j < i ==> (#[trigger] out@[j]).to@ == views_of(members@)[j]
                    && (out@[j].message matches SignalingMessage::PeerList { room_id: rid, peers }
                    && rid@ == room_id@ && views_of(peers@) == views_of(members@)),
        decreases n - i,
    {
        let msg = SignalingMessage::PeerList {
            room_id: room_id.to_owned(),
            peers: clone_strings(members),
        };
        out.push(OutboundMessage { to: members[i].clone(), message: msg });
        i = i + 1;
    }
    out
}

impl MessageHandler {
    /// Handles `Join`: admits the peer into the room (creating it on
    /// first use), gives it a fresh relay, and broadcasts the updated
    /// membership to every member including the joiner; a full room
    /// refuses the join with a `room_full` media error and changes
    /// nothing.
    pub fn handle_join(&mut self, room_id: &str, peer_id: &str) -> (r: Dispatch)
        requires
            old(self).wf(),
        ensures
            final(self).wf(),
            final(self)@ == spec_join(old(self)@, room_id@, peer_id@),
            spec_join_member(old(self)@, room_id@, peer_id@) ==> spec_peer_list_broadcast(
                r.outbound@,
                room_id@,
                assoc_value(old(self)@.rooms, room_id@).peers,
            ) && r.actions@ == Seq::<RelayAction>::empty(),
            spec_join_elsewhere(old(self)@, room_id@, peer_id@) ==> r.outbound@ == Seq::<
                OutboundMessage,
            >::empty() && r.actions@ == Seq::<RelayAction>::empty(),
            spec_join_full(old(self)@, room_id@, peer_id@) ==> {
                &&& r.outbound@.len() == 1
                &&& r.outbound@[0].to@ == peer_id@
                &&& (r.outbound@[0].message matches SignalingMessage::MediaError {
                    error_type,
                    description,
                    peer_id: pid,
                } && error_type@ == "room_full"@ && description@ == "Room is full"@ && pid@
                    == peer_id@)
                &&& r.actions@ == Seq::<RelayAction>::empty()
            },
            spec_join_admit(old(self)@, room_id@, peer_id@) ==> {
                &&& spec_peer_list_broadcast(
                    r.outbound@,
                    room_id@,
                    assoc_value(spec_join(old(self)@, room_id@, peer_id@).rooms, room_id@).peers,
                )
                &&& r.actions@.len() == 1
                &&& (r.actions@[0] matches RelayAction::CreatePeerConnection { peer_id: pid }
                    && pid@ == peer_id@)
            },
    {
        let ghost v0 = self@;
        let indexed_room: Option<String> = match self.peer_rooms.get(peer_id) {
            Some(rid) => Some(rid.clone()),
            None => None,
        };
        match indexed_room {
            Some(rid0) => {
                if str_eq(rid0.as_str(), room_id) {
                    // Already a member: repeat the membership broadcast.
                    proof {
                        assert(spec_join_member(v0, room_id@, peer_id@));
                    }
                    match self.rooms.get_room(room_id) {
                        Ok(room) => {
                            let members = room.peer_ids();
                            let out = make_peer_list(room_id, &members);
                            Dispatch { outbound: out, actions: Vec::new() }
                        },
                        Err(_) => {
                            proof {
                                assert(false);
                            }
                            Dispatch::empty()
                        },
                    }
                } else {
                    // Indexed to another room: a peer lives in at most
                    // one room, so the join is dropped.
                    Dispatch::empty()
                }
            },
            None => {
                let full: bool = match self.rooms.get_room(room_id) {
                    Ok(room) => room.peers.len() >= room.media_settings.max_participants,
                    Err(_) => false,
                };
                if full {
                    let msg = SignalingMessage::MediaError {
                        error_type: String::from_str("room_full"),
                        description: String::from_str("Room is full"),
                        peer_id: peer_id.to_owned(),
                    };
                    let mut out: Vec<OutboundMessage> = Vec::new();
                    out.push(OutboundMessage { to: peer_id.to_owned(), message: msg });
                    Dispatch { outbound: out, actions: Vec::new() }
                } else {
                    proof {
                        assert(spec_join_admit(v0, room_id@, peer_id@));
                    }
                    self.rooms.create_or_get(room_id);
                    let ghost rooms1 = self.rooms.rooms@;
                    proof {
                        if !assoc_has_key(v0.rooms, room_id@) {
                            assert(rooms1 == assoc_insert(v0.rooms, room_id@, spec_new_room(room_id@)));
                            assert(rooms1 == v0.rooms.push((room_id@, spec_new_room(room_id@))));
                            lemma_assoc_insert_props(v0.rooms, room_id@, spec_new_room(room_id@));
                        }
                    }
                    let ghost room1 = assoc_value(rooms1, room_id@);
                    proof {
                        // the joiner is not yet listed in the room
                        if room1.peers.contains(peer_id@) {
                            assert(assoc_has_key(v0.peer_rooms, peer_id@));
                        }
                        // and the room has space
                        assert(room1.peers.len() < room1.max_participants);
                    }
                    let res = self.rooms.add_peer_to_room(room_id, peer_id.to_owned());
                    proof {
                        assert(res is Ok);
                        assert(self.rooms.rooms@ == assoc_insert(
                            rooms1,
                            room_id@,
                            RoomView { peers: room1.peers.push(peer_id@), ..room1 },
                        ));
                    }
                    self.relay_manager.create_relay(peer_id.to_owned());
                    self.peer_rooms.insert(peer_id.to_owned(), room_id.to_owned());
                    proof {
                        assert(self@ =~= spec_join(v0, room_id@, peer_id@));
                        lemma_join_admit_wf(v0, room_id@, peer_id@);
                    }
                    let mut actions: Vec<RelayAction> = Vec::new();
                    actions.push(RelayAction::CreatePeerConnection { peer_id: peer_id.to_owned() });
                    match self.rooms.get_room(room_id) {
                        Ok(room) => {
                            let members = room.peer_ids();
                            proof {
                                let room2 = RoomView { peers: room1.peers.push(peer_id@), ..room1 };
                                lemma_assoc_insert_props(rooms1, room_id@, room2);
                                assert(assoc_value(self.rooms.rooms@, room_id@) == room2);
                            }
                            let out = make_peer_list(room_id, &members);
                            Dispatch { outbound: out, actions }
                        },
                        Err(_) => {
                            proof {
                                lemma_assoc_insert_props(
                                    rooms1,
                                    room_id@,
                                    (RoomView { peers: room1.peers.push(peer_id@), ..room1 }),
                                );
                                assert(false);
                            }
                            Dispatch::empty()
                        },
                    }
                }
            },
        }
    }
}

/// An admitted join keeps the registries coherent.
proof fn lemma_join_admit_wf(v: HandlerView, rid: Seq<char>, p: Seq<char>)
    requires
        handler_wf(v),
        spec_join_admit(v, rid, p),
    ensures
        handler_wf(spec_join(v, rid, p)),
{
    let v1 = spec_join(v, rid, p);
    let rooms1 = if assoc_has_key(v.rooms, rid) {
        v.rooms
    } else {
        v.rooms.push((rid, spec_new_room(rid)))
    };
    let room1 = assoc_value(rooms1, rid);
    let room2 = RoomView { peers: room1.peers.push(p), ..room1 };
    if !assoc_has_key(v.rooms, rid) {
        assert(rooms1 == assoc_insert(v.rooms, rid, spec_new_room(rid)));
        lemma_assoc_insert_props(v.rooms, rid, spec_new_room(rid));
    }
    assert(unique_keys(rooms1));
    assert(v1.rooms == assoc_insert(rooms1, rid, room2));
    lemma_assoc_insert_props(rooms1, rid, room2);
    lemma_assoc_insert_props(v.relays, p, spec_new_relay(p));
    lemma_assoc_insert_props(v.peer_rooms, p, rid);

    // the joiner was not listed anywhere
    assert forall|r: Seq<char>|
        assoc_has_key(v.rooms, r) implies !(#[trigger] assoc_value(v.rooms, r)).peers.contains(
        p,
    ) by {
        if assoc_value(v.rooms, r).peers.contains(p) {
            assert(assoc_has_key(v.peer_rooms, p));
        }
    }

    // rooms carry their key and stay well formed
    assert forall|r: Seq<char>| #[trigger] assoc_has_key(v1.rooms, r) implies assoc_value(
        v1.rooms,
        r,
    ).id == r && spec_room_wf(assoc_value(v1.rooms, r)) by {
        if r == rid {
            assert(assoc_value(v1.rooms, rid) == room2);
            assert(room1.id == rid);
            assert(spec_room_wf(room1));
            assert(!room1.peers.contains(p));
            assert forall|i: int, j: int|
                0 <= i < j < room2.peers.len() implies room2.peers[i] != room2.peers[j] by {
                if j == room2.peers.len() - 1 {
                    assert(room2.peers[i] == room1.peers[i]);
                    assert(room1.peers.contains(room1.peers[i]));
                }
            }
        } else {
            assert(assoc_has_key(rooms1, r));
            assert(assoc_value(v1.rooms, r) == assoc_value(rooms1, r));
        }
    }

    // every listed peer has a relay and the right index entry
    assert forall|r: Seq<char>, q: Seq<char>|
        assoc_has_key(v1.rooms, r) && #[trigger] assoc_value(v1.rooms, r).peers.contains(
            q,
        ) implies assoc_has_key(v1.relays, q) && assoc_has_key(v1.peer_rooms, q) && assoc_value(
        v1.peer_rooms,
        q,
    ) == r by {
        if r == rid {
            let peers2 = room2.peers;
            let w = choose|w: int| 0 <= w < peers2.len() && peers2[w] == q;
            if w == peers2.len() - 1 {
                assert(q == p);
            } else {
                assert(room1.peers[w] == q);
                assert(room1.peers.contains(q));
                assert(assoc_has_key(rooms1, rid));
                if assoc_has_key(v.rooms, rid) {
                    assert(assoc_value(v.rooms, rid) == room1);
                    assert(q != p);
                } else {
                    assert(room1 == spec_new_room(rid));
                    assert(false);
                }
            }
        } else {
            assert(assoc_has_key(rooms1, r));
            assert(assoc_value(v1.rooms, r) == assoc_value(rooms1, r));
            assert(assoc_has_key(v.rooms, r) && assoc_value(v.rooms, r) == assoc_value(
                rooms1,
                r,
            ));
            assert(q != p);
        }
    }

    // every indexed peer is listed in its room
    assert forall|q: Seq<char>| #[trigger] assoc_has_key(v1.peer_rooms, q) implies assoc_has_key(
        v1.rooms,
        assoc_value(v1.peer_rooms, q),
    ) && assoc_value(v1.rooms, assoc_value(v1.peer_rooms, q)).peers.contains(q) by {
        if q == p {
            assert(assoc_value(v1.peer_rooms, p) == rid);
            assert(assoc_value(v1.rooms, rid) == room2);
            assert(room2.peers[room2.peers.len() - 1] == p);
        } else {
            assert(assoc_has_key(v.peer_rooms, q));
            let r = assoc_value(v.peer_rooms, q);
            assert(assoc_value(v1.peer_rooms, q) == r);
            assert(assoc_has_key(v.rooms, r));
            assert(assoc_value(v.rooms, r).peers.contains(q));
            if r == rid {
                assert(assoc_value(v.rooms, rid) == room1);
                let w = choose|w: int| 0 <= w < room1.peers.len() && room1.peers[w] == q;
                assert(room2.peers[w] == q);
            } else {
                assert(assoc_has_key(rooms1, r) && assoc_value(rooms1, r) == assoc_value(
                    v.rooms,
                    r,
                ));
                assert(assoc_value(v1.rooms, r) == assoc_value(rooms1, r));
            }
        }
    }
}

/// The room a disconnect acts on: the peer's indexed room when there is
/// one, else the room named in the message.
pub open spec fn spec_disconnect_room(v: HandlerView, p: Seq<char>, rid: Seq<char>) -> Seq<
    char,
> {
    if assoc_has_key(v.peer_rooms, p) {
        assoc_value(v.peer_rooms, p)
    } else {
        rid
    }
}

/// The registries after a disconnect: the peer's sender, relay, and
/// room index entries are dropped, its room listing is removed, and a
/// room left empty is destroyed.
pub open spec fn spec_disconnect(v: HandlerView, p: Seq<char>, rid: Seq<char>) -> HandlerView {
    let r = spec_disconnect_room(v, p, rid);
    let rooms1 = if !assoc_has_key(v.rooms, r) {
        v.rooms
    } else {
        let room0 = assoc_value(v.rooms, r);
        let room1 = RoomView { peers: spec_remove_id(room0.peers, p), ..room0 };
        if room1.peers.len() == 0 {
            assoc_remove(v.rooms, r)
        } else {
            assoc_insert(v.rooms, r, room1)
        }
    };
    HandlerView {
        relays: assoc_remove(v.relays, p),
        rooms: rooms1,
        senders: assoc_remove(v.senders, p),
        peer_rooms: assoc_remove(v.peer_rooms, p),
    }
}

impl MessageHandler {
    /// Tears a peer down: drops its sender, relay, and room index
    /// entries, removes it from its room (destroying a room left
    /// empty), and broadcasts the updated membership to every remaining
    /// member.  Running the path again for the same peer changes
    /// nothing.
    pub fn handle_disconnect(&mut self, peer_id: &str, room_id: &str) -> (r: Dispatch)
        requires
            old(self).wf(),
        ensures
            final(self).wf(),
            final(self)@ == spec_disconnect(old(self)@, peer_id@, room_id@),
            ({
                let reff = spec_disconnect_room(old(self)@, peer_id@, room_id@);
                let remaining = spec_remove_id(
                    assoc_value(old(self)@.rooms, reff).peers,
                    peer_id@,
                );
                &&& (assoc_has_key(old(self)@.rooms, reff) && remaining.len() > 0
                    ==> spec_peer_list_broadcast(r.outbound@, reff, remaining))
                &&& (!(assoc_has_key(old(self)@.rooms, reff) && remaining.len() > 0)
                    ==> r.outbound@ == Seq::<OutboundMessage>::empty())
            }),
            assoc_has_key(old(self)@.relays, peer_id@) ==> r.actions@.len() == 1 && (r.actions@[0]
                matches RelayAction::ClosePeerConnection { peer_id: pid } && pid@ == peer_id@),
            !assoc_has_key(old(self)@.relays, peer_id@) ==> r.actions@ == Seq::<
                RelayAction,
            >::empty(),
    {
        let ghost v0 = self@;
        let eff: String = match self.peer_rooms.get(peer_id) {
            Some(rid) => rid.clone(),
            None => room_id.to_owned(),
        };
        self.websocket_senders.remove(peer_id);
        let had_relay = self.relay_manager.remove_relay(peer_id);
        self.peer_rooms.remove(peer_id);
        let mut outbound: Vec<OutboundMessage> = Vec::new();
        match self.rooms.remove_peer_from_room(eff.as_str(), peer_id) {
            Ok(()) => {
                let ghost room1 = RoomView {
                    peers: spec_remove_id(assoc_value(v0.rooms, eff@).peers, peer_id@),
                    ..assoc_value(v0.rooms, eff@)
                };
                proof {
                    lemma_assoc_insert_props(v0.rooms, eff@, room1);
                }
                let emptied: bool = match self.rooms.get_room(eff.as_str()) {
                    Ok(room) => room.peers.len() == 0,
                    Err(_) => {
                        proof {
                            assert(false);
                        }
                        true
                    },
                };
                if emptied {
                    let _ = self.rooms.remove_room(eff.as_str());
                    proof {
                        let i = assoc_idx(v0.rooms, eff@);
                        lemma_assoc_idx(v0.rooms, eff@);
                        let ins = assoc_insert(v0.rooms, eff@, room1);
                        lemma_assoc_idx_unique(ins, eff@, i);
                        assert(assoc_remove(ins, eff@) =~= assoc_remove(v0.rooms, eff@));
                    }
                } else {
                    match self.rooms.get_room(eff.as_str()) {
                        Ok(room) => {
                            let members = room.peer_ids();
                            outbound = make_peer_list(eff.as_str(), &members);
                        },
                        Err(_) => {
                            proof {
                                assert(false);
                            }
                        },
                    }
                }
            },
            Err(_) => {},
        }
        let mut actions: Vec<RelayAction> = Vec::new();
        if had_relay {
            actions.push(RelayAction::ClosePeerConnection { peer_id: peer_id.to_owned() });
            proof {
                assert(actions@ =~= seq![
                    RelayAction::ClosePeerConnection { peer_id: actions@[0]->ClosePeerConnection_peer_id },
                ]);
            }
        }
        proof {
            assert(self@ =~= spec_disconnect(v0, peer_id@, room_id@));
            lemma_disconnect_wf(v0, peer_id@, room_id@);
        }
        Dispatch { outbound, actions }
    }
}

/// A disconnect keeps the registries coherent.
proof fn lemma_disconnect_wf(v: HandlerView, p: Seq<char>, rid: Seq<char>)
    requires
        handler_wf(v),
    ensures
        handler_wf(spec_disconnect(v, p, rid)),
{
    let v1 = spec_disconnect(v, p, rid);
    let r = spec_disconnect_room(v, p, rid);
    lemma_assoc_remove_props(v.relays, p);
    lemma_assoc_remove_props(v.senders, p);
    lemma_assoc_remove_props(v.peer_rooms, p);

    // p is listed in no room other than r
    assert forall|q: Seq<char>|
        assoc_has_key(v.rooms, q) && q != r implies !(#[trigger] assoc_value(
        v.rooms,
        q,
    )).peers.contains(p) by {
        if assoc_value(v.rooms, q).peers.contains(p) {
            assert(assoc_has_key(v.peer_rooms, p) && assoc_value(v.peer_rooms, p) == q);
        }
    }

    if !assoc_has_key(v.rooms, r) {
        // p cannot be listed anywhere at all
        assert forall|q: Seq<char>|
            assoc_has_key(v.rooms, q) implies !(#[trigger] assoc_value(
            v.rooms,
            q,
        )).peers.contains(p) by {
            if assoc_value(v.rooms, q).peers.contains(p) {
                assert(assoc_has_key(v.peer_rooms, p) && assoc_value(v.peer_rooms, p) == q);
                assert(q == r);
            }
        }
        assert(handler_wf(v1));
    } else {
        let room0 = assoc_value(v.rooms, r);
        let room1 = RoomView { peers: spec_remove_id(room0.peers, p), ..room0 };
        lemma_remove_id_unique(room0.peers, p);
        if room1.peers.len() == 0 {
            lemma_assoc_remove_props(v.rooms, r);
            // nobody other than p can be indexed to r
            assert forall|q: Seq<char>| #[trigger]
                assoc_has_key(v1.peer_rooms, q) implies assoc_has_key(
                v1.rooms,
                assoc_value(v1.peer_rooms, q),
            ) && assoc_value(v1.rooms, assoc_value(v1.peer_rooms, q)).peers.contains(q) by {
                assert(q != p);
                assert(assoc_has_key(v.peer_rooms, q));
                let rq = assoc_value(v.peer_rooms, q);
                assert(assoc_value(v1.peer_rooms, q) == rq);
                assert(assoc_value(v.rooms, rq).peers.contains(q));
                if rq == r {
                    assert(room0.peers.contains(q));
                    assert(room1.peers.contains(q));
                    assert(false);
                }
            }
            assert(handler_wf(v1));
        } else {
            lemma_assoc_insert_props(v.rooms, r, room1);
            assert forall|q: Seq<char>, x: Seq<char>|
                assoc_has_key(v1.rooms, q) && #[trigger] assoc_value(v1.rooms, q).peers.contains(
                    x,
                ) implies assoc_has_key(v1.relays, x) && assoc_has_key(v1.peer_rooms, x)
                && assoc_value(v1.peer_rooms, x) == q by {
                if q == r {
                    assert(x != p);
                    assert(room0.peers.contains(x));
                } else {
                    assert(assoc_value(v1.rooms, q) == assoc_value(v.rooms, q));
                    assert(x != p);
                }
            }
            assert forall|q: Seq<char>| #[trigger]
                assoc_has_key(v1.peer_rooms, q) implies assoc_has_key(
                v1.rooms,
                assoc_value(v1.peer_rooms, q),
            ) && assoc_value(v1.rooms, assoc_value(v1.peer_rooms, q)).peers.contains(q) by {
                assert(q != p);
                assert(assoc_has_key(v.peer_rooms, q));
                let rq = assoc_value(v.peer_rooms, q);
                assert(assoc_value(v1.peer_rooms, q) == rq);
                if rq == r {
                    assert(room0.peers.contains(q));
                    assert(room1.peers.contains(q));
                }
            }
            assert(handler_wf(v1));
        }
    }
}

/// Idempotent disconnect: running the disconnect path twice for the
/// same peer leaves the registries exactly as one run leaves them.
pub proof fn lemma_disconnect_idempotent(v: HandlerView, p: Seq<char>, rid: Seq<char>)
    requires
        handler_wf(v),
    ensures
        spec_disconnect(spec_disconnect(v, p, rid), p, rid) == spec_disconnect(v, p, rid),
{
    let v1 = spec_disconnect(v, p, rid);
    let v2 = spec_disconnect(v1, p, rid);
    lemma_disconnect_wf(v, p, rid);
    lemma_assoc_remove_props(v.relays, p);
    lemma_assoc_remove_props(v.senders, p);
    lemma_assoc_remove_props(v.peer_rooms, p);
    assert(!assoc_has_key(v1.peer_rooms, p));
    assert(spec_disconnect_room(v1, p, rid) == rid);
    assert(v2.relays =~= v1.relays);
    assert(v2.senders =~= v1.senders);
    assert(v2.peer_rooms =~= v1.peer_rooms);
    if assoc_has_key(v1.rooms, rid) {
        let room0 = assoc_value(v1.rooms, rid);
        // p is listed nowhere in v1
        assert(!room0.peers.contains(p)) by {
            if room0.peers.contains(p) {
                assert(assoc_has_key(v1.peer_rooms, p));
            }
        }
        lemma_remove_id_absent(room0.peers, p);
        let room1 = RoomView { peers: spec_remove_id(room0.peers, p), ..room0 };
        assert(room1 =~= room0);
        assert(room1.peers.len() > 0);
        let i = assoc_idx(v1.rooms, rid);
        lemma_assoc_idx(v1.rooms, rid);
        assert(v2.rooms == assoc_insert(v1.rooms, rid, room1));
        assert(v1.rooms[i] == (rid, room0));
        assert(v2.rooms =~= v1.rooms);
    } else {
        assert(v2.rooms == v1.rooms);
    }
    assert(v2 =~= v1);
}

/// The relay registry after a remote description lands on `to`: that
/// relay takes the description and drains its buffer; everything else
/// is untouched.
pub open spec fn spec_sdp_applied(
    v0: HandlerView,
    v1: HandlerView,
    to: Seq<char>,
    sdp: Seq<char>,
) -> bool {
    &&& v1.rooms == v0.rooms
    &&& v1.senders == v0.senders
    &&& v1.peer_rooms == v0.peer_rooms
    &&& assoc_value(v1.relays, to) == spec_set_remote(assoc_value(v0.relays, to), sdp)
    &&& forall|q: Seq<char>| #[trigger]
        assoc_has_key(v1.relays, q) == assoc_has_key(v0.relays, q)
    &&& forall|q: Seq<char>|
        q != to && assoc_has_key(v0.relays, q) ==> #[trigger] assoc_value(v1.relays, q)
            == assoc_value(v0.relays, q)
}

/// The actions that apply a remote description: set it, apply each
/// previously buffered candidate oldest first, and optionally create an
/// answer.
pub open spec fn spec_sdp_actions(
    acts: Seq<RelayAction>,
    to: Seq<char>,
    sdp: Seq<char>,
    buffered: Seq<Seq<char>>,
    with_answer: bool,
) -> bool {
    &&& acts.len() == buffered.len() + 1 + if with_answer {
        1int
    } else {
        0int
    }
    &&& (acts[0] matches RelayAction::SetRemoteDescription { peer_id, sdp: s } && peer_id@ == to
        && s@ == sdp)
    &&& forall|k: int|
        0 <= k < buffered.len() ==> (#[trigger] acts[1 + k] matches RelayAction::ApplyIceCandidate {
            peer_id,
            candidate,
        } && peer_id@ == to && candidate@ == buffered[k])
    &&& (with_answer ==> (acts[acts.len() - 1] matches RelayAction::CreateAnswer { peer_id }
        && peer_id@ == to))
}

impl MessageHandler {
    /// Applies a remote description to `to_peer`'s relay and returns
    /// the actions for the transport: set it, apply the drained
    /// candidates in arrival order, and (for an offer) create an
    /// answer.  A peer without a relay is skipped.
    fn apply_remote_description(&mut self, to_peer: &str, sdp: String, with_answer: bool) -> (r:
        Dispatch)
        requires
            old(self).wf(),
        ensures
            final(self).wf(),
            r.outbound@ == Seq::<OutboundMessage>::empty(),
            !assoc_has_key(old(self)@.relays, to_peer@) ==> final(self)@ == old(self)@
                && r.actions@ == Seq::<RelayAction>::empty(),
            assoc_has_key(old(self)@.relays, to_peer@) ==> spec_sdp_applied(
                old(self)@,
                final(self)@,
                to_peer@,
                sdp@,
            ) && spec_sdp_actions(
                r.actions@,
                to_peer@,
                sdp@,
                assoc_value(old(self)@.relays, to_peer@).buffer,
                with_answer,
            ),
    {
        let ghost v0 = self@;
        let sdp_for_action = sdp.clone();
        match self.relay_manager.relay_set_remote_description(to_peer, sdp) {
            Some(drained) => {
                let mut actions: Vec<RelayAction> = Vec::new();
                actions.push(
                    RelayAction::SetRemoteDescription {
                        peer_id: to_peer.to_owned(),
                        sdp: sdp_for_action,
                    },
                );
                let n = drained.len();
                let ghost buffered = assoc_value(v0.relays, to_peer@).buffer;
                let mut k: usize = 0;
                while k < n
                    invariant
                        n == drained@.len(),
                        k <= n,
                        views_of(drained@) == buffered,
                        actions@.len() == k + 1,
                        (actions@[0] matches RelayAction::SetRemoteDescription { peer_id, sdp: s }
                            && peer_id@ == to_peer@ && s@ == sdp_for_action@),
                        forall|j: int|
                            0 <= j < k ==> (#[trigger] actions@[1 + j] matches
                                RelayAction::ApplyIceCandidate { peer_id, candidate } && peer_id@
                                == to_peer@ && candidate@ == buffered[j]),
                    decreases n - k,
                {
                    proof {
                        assert(views_of(drained@)[k as int] == buffered[k as int]);
                    }
                    actions.push(
                        RelayAction::ApplyIceCandidate {
                            peer_id: to_peer.to_owned(),
                            candidate: drained[k].clone(),
                        },
                    );
                    k = k + 1;
                }
                if with_answer {
                    actions.push(RelayAction::CreateAnswer { peer_id: to_peer.to_owned() });
                }
                proof {
                    assert(handler_wf(self@));
                }
                Dispatch { outbound: Vec::new(), actions }
            },
            None => Dispatch::empty(),
        }
    }

    /// Handles `Offer`: sets the offer on `to_peer`'s relay, drains the
    /// candidate buffer, and asks the transport to create an answer.
    /// The answer frame itself is routed by `handle_answer_created`
    /// once the transport has produced it.
    #[allow(unused_variables)]
    pub fn handle_offer(&mut self, room_id: String, from_peer: String, to_peer: String, sdp: String) -> (r: Dispatch)
        requires
            old(self).wf(),
        ensures
            final(self).wf(),
            r.outbound@ == Seq::<OutboundMessage>::empty(),
            !assoc_has_key(old(self)@.relays, to_peer@) ==> final(self)@ == old(self)@
                && r.actions@ == Seq::<RelayAction>::empty(),
            assoc_has_key(old(self)@.relays, to_peer@) ==> spec_sdp_applied(
                old(self)@,
                final(self)@,
                to_peer@,
                sdp@,
            ) && spec_sdp_actions(
                r.actions@,
                to_peer@,
                sdp@,
                assoc_value(old(self)@.relays, to_peer@).buffer,
                true,
            ),
    {
        self.apply_remote_description(to_peer.as_str(), sdp, true)
    }

    /// Handles `Answer`: sets the answer on `to_peer`'s relay and
    /// drains the candidate buffer.
    #[allow(unused_variables)]
    pub fn handle_answer(&mut self, room_id: String, from_peer: String, to_peer: String, sdp: String) -> (r: Dispatch)
        requires
            old(self).wf(),
        ensures
            final(self).wf(),
            r.outbound@ == Seq::<OutboundMessage>::empty(),
            !assoc_has_key(old(self)@.relays, to_peer@) ==> final(self)@ == old(self)@
                && r.actions@ == Seq::<RelayAction>::empty(),
            assoc_has_key(old(self)@.relays, to_peer@) ==> spec_sdp_applied(
                old(self)@,
                final(self)@,
                to_peer@,
                sdp@,
            ) && spec_sdp_actions(
                r.actions@,
                to_peer@,
                sdp@,
                assoc_value(old(self)@.relays, to_peer@).buffer,
                false,
            ),
    {
        self.apply_remote_description(to_peer.as_str(), sdp, false)
    }

    /// Routes the answer the transport produced for an offer from
    /// `from_peer` back to that peer.
    pub fn handle_answer_created(
        &mut self,
        room_id: String,
        from_peer: String,
        to_peer: String,
        answer_sdp: String,
    ) -> (r: Dispatch)
        requires
            old(self).wf(),
        ensures
            final(self).wf(),
            final(self)@ == old(self)@,
            r.actions@ == Seq::<RelayAction>::empty(),
            r.outbound@.len() == 1,
            r.outbound@[0].to@ == from_peer@,
            (r.outbound@[0].message matches SignalingMessage::Answer {
                room_id: rid,
                sdp,
                from_peer: fp,
                to_peer: tp,
            } && rid@ == room_id@ && sdp@ == answer_sdp@ && fp@ == to_peer@ && tp@ == from_peer@),
    {
        let msg = SignalingMessage::Answer {
            room_id,
            sdp: answer_sdp,
            from_peer: to_peer,
            to_peer: from_peer.clone(),
        };
        let mut outbound: Vec<OutboundMessage> = Vec::new();
        outbound.push(OutboundMessage { to: from_peer, message: msg });
        Dispatch { outbound, actions: Vec::new() }
    }

    /// Handles `IceCandidate`: decodes a possibly double-encoded
    /// payload, forwards it to `to_peer`'s session, and hands it to
    /// `to_peer`'s relay, which buffers it until a remote description
    /// is set.  An undecodable payload is dropped.
    pub fn handle_ice_candidate(
        &mut self,
        room_id: String,
        from_peer: String,
        to_peer: String,
        candidate: String,
    ) -> (r: Dispatch)
        requires
            old(self).wf(),
        ensures
            final(self).wf(),
            spec_normalize_candidate(candidate@) is None ==> final(self)@ == old(self)@
                && r.outbound@ == Seq::<OutboundMessage>::empty() && r.actions@ == Seq::<
                RelayAction,
            >::empty(),
            spec_normalize_candidate(candidate@) matches Some(c) ==> {
                let v0 = old(self)@;
                let v1 = final(self)@;
                &&& v1.rooms == v0.rooms
                &&& v1.senders == v0.senders
                &&& v1.peer_rooms == v0.peer_rooms
                &&& (assoc_has_key(v0.senders, to_peer@) ==> r.outbound@.len() == 1
                    && r.outbound@[0].to@ == to_peer@ && (r.outbound@[0].message matches
                    SignalingMessage::IceCandidate { room_id: rid, candidate: cc, from_peer: fp, to_peer: tp }
                    && rid@ == room_id@ && cc@ == c && fp@ == from_peer@ && tp@ == to_peer@))
                &&& (!assoc_has_key(v0.senders, to_peer@) ==> r.outbound@ == Seq::<
                    OutboundMessage,
                >::empty())
                &&& (!assoc_has_key(v0.relays, to_peer@) ==> v1.relays == v0.relays && r.actions@
                    == Seq::<RelayAction>::empty())
                &&& (assoc_has_key(v0.relays, to_peer@) ==> {
                    &&& assoc_value(v1.relays, to_peer@) == spec_add_ice(
                        assoc_value(v0.relays, to_peer@),
                        c,
                    )
                    &&& forall|q: Seq<char>| #[trigger]
                        assoc_has_key(v1.relays, q) == assoc_has_key(v0.relays, q)
                    &&& forall|q: Seq<char>|
                        q != to_peer@ && assoc_has_key(v0.relays, q) ==> #[trigger] assoc_value(
                            v1.relays,
                            q,
                        ) == assoc_value(v0.relays, q)
                    &&& (assoc_value(v0.relays, to_peer@).remote_description is Some
                        ==> r.actions@.len() == 1 && (r.actions@[0] matches
                        RelayAction::ApplyIceCandidate { peer_id, candidate: cc } && peer_id@
                        == to_peer@ && cc@ == c))
                    &&& (assoc_value(v0.relays, to_peer@).remote_description is None
                        ==> r.actions@ == Seq::<RelayAction>::empty())
                })
            },
    {
        let ghost v0 = self@;
        match normalize_candidate(candidate) {
            None => Dispatch::empty(),
            Some(parsed) => {
                let mut outbound: Vec<OutboundMessage> = Vec::new();
                if self.websocket_senders.contains_key(to_peer.as_str()) {
                    let msg = SignalingMessage::IceCandidate {
                        room_id,
                        candidate: parsed.clone(),
                        from_peer,
                        to_peer: to_peer.clone(),
                    };
                    outbound.push(OutboundMessage { to: to_peer.clone(), message: msg });
                }
                let mut actions: Vec<RelayAction> = Vec::new();
                match self.relay_manager.relay_add_ice_candidate(to_peer.as_str(), parsed) {
                    Some(Some(apply_now)) => {
                        actions.push(
                            RelayAction::ApplyIceCandidate {
                                peer_id: to_peer,
                                candidate: apply_now,
                            },
                        );
                    },
                    Some(None) => {},
                    None => {},
                }
                proof {
                    assert(handler_wf(self@));
                }
                Dispatch { outbound, actions }
            },
        }
    }

    /// Handles `RequestPeerList`: replies to the requester alone with
    /// the room's membership (empty when the room does not exist).
    pub fn handle_peer_list_request(&self, room_id: String, requester: &str) -> (r: Dispatch)
        requires
            self.wf(),
        ensures
            r.actions@ == Seq::<RelayAction>::empty(),
            r.outbound@.len() == 1,
            r.outbound@[0].to@ == requester@,
            (r.outbound@[0].message matches SignalingMessage::PeerList { room_id: rid, peers }
                && rid@ == room_id@ && views_of(peers@) == (if assoc_has_key(
                self@.rooms,
                room_id@,
            ) {
                assoc_value(self@.rooms, room_id@).peers
            } else {
                Seq::<Seq<char>>::empty()
            })),
    {
        let peers: Vec<String> = match self.rooms.get_room(room_id.as_str()) {
            Ok(room) => room.peer_ids(),
            Err(_) => {
                let empty: Vec<String> = Vec::new();
                proof {
                    assert(views_of(empty@) =~= Seq::<Seq<char>>::empty());
                }
                empty
            },
        };
        let msg = SignalingMessage::PeerList { room_id, peers };
        let mut outbound: Vec<OutboundMessage> = Vec::new();
        outbound.push(OutboundMessage { to: requester.to_owned(), message: msg });
        Dispatch { outbound, actions: Vec::new() }
    }
}

/// The call-request targets that have a registered sender, in request
/// order.
pub open spec fn spec_registered_targets(
    senders: Seq<(Seq<char>, u64)>,
    to_peers: Seq<String>,
) -> Seq<Seq<char>>
    decreases to_peers.len(),
{
    if to_peers.len() == 0 {
        Seq::empty()
    } else {
        let rest = spec_registered_targets(senders, to_peers.drop_last());
        if assoc_has_key(senders, to_peers.last()@) {
            rest.push(to_peers.last()@)
        } else {
            rest
        }
    }
}

/// The registered senders whose peer is indexed to `rid`, in
/// registration order.
pub open spec fn spec_room_recipients(
    senders: Seq<(Seq<char>, u64)>,
    peer_rooms: Seq<(Seq<char>, Seq<char>)>,
    rid: Seq<char>,
) -> Seq<Seq<char>>
    decreases senders.len(),
{
    if senders.len() == 0 {
        Seq::empty()
    } else {
        let rest = spec_room_recipients(senders.drop_last(), peer_rooms, rid);
        let p = senders.last().0;
        if assoc_has_key(peer_rooms, p) && assoc_value(peer_rooms, p) == rid {
            rest.push(p)
        } else {
            rest
        }
    }
}

/// The state after disconnecting every listed peer in order, each via
/// its indexed room; peers in no room are skipped.
pub open spec fn spec_validate(v: HandlerView, ps: Seq<Seq<char>>) -> HandlerView
    decreases ps.len(),
{
    if ps.len() == 0 {
        v
    } else {
        let v1 = spec_validate(v, ps.drop_last());
        let p = ps.last();
        if assoc_has_key(v1.peer_rooms, p) {
            spec_disconnect(v1, p, assoc_value(v1.peer_rooms, p))
        } else {
            v1
        }
    }
}

/// What any of the three disconnect forms leaves behind: the
/// registries after the disconnect, and the membership broadcast to
/// every remaining member.
pub open spec fn spec_disconnect_post(
    v0: HandlerView,
    v1: HandlerView,
    out: Seq<OutboundMessage>,
    p: Seq<char>,
    rid: Seq<char>,
) -> bool {
    &&& v1 == spec_disconnect(v0, p, rid)
    &&& ({
        let reff = spec_disconnect_room(v0, p, rid);
        let remaining = spec_remove_id(assoc_value(v0.rooms, reff).peers, p);
        assoc_has_key(v0.rooms, reff) && remaining.len() > 0 ==> spec_peer_list_broadcast(
            out,
            reff,
            remaining,
        )
    })
}

impl MessageHandler {
    /// Computes the delivery list for a `PeerList` frame: one copy to
    /// every registered sender whose peer is in the frame's room.  Any
    /// other message broadcasts to nobody.
    pub fn broadcast_message(&self, msg: &SignalingMessage) -> (out: Vec<OutboundMessage>)
        requires
            self.wf(),
        ensures
            (msg matches SignalingMessage::PeerList { room_id, peers } ==> {
                let rcpts = spec_room_recipients(self@.senders, self@.peer_rooms, room_id@);
                &&& out@.len() == rcpts.len()
                &&& forall|i: int|
                    0 <= i < out@.len() ==> (#[trigger] out@[i]).to@ == rcpts[i] && (out@[i].message
                        matches SignalingMessage::PeerList { room_id: rid, peers: ps } && rid@
                        == room_id@ && views_of(ps@) == views_of(peers@))
            }),
            !(msg is PeerList) ==> out@ == Seq::<OutboundMessage>::empty(),
    {
        match msg {
            SignalingMessage::PeerList { room_id, peers } => {
                let n = self.websocket_senders.len();
                let mut out: Vec<OutboundMessage> = Vec::new();
                let mut i: usize = 0;
                proof {
                    assert(self@.senders.take(0) =~= Seq::<(Seq<char>, u64)>::empty());
                }
                while i < n
                    invariant
                        self.wf(),
                        n == self@.senders.len(),
                        i <= n,
                        ({
                            let rcpts = spec_room_recipients(
                                self@.senders.take(i as int),
                                self@.peer_rooms,
                                room_id@,
                            );
                            &&& out@.len() == rcpts.len()
                            &&& forall|j: int|
                                0 <= j < out@.len() ==> (#[trigger] out@[j]).to@ == rcpts[j] && (
                                out@[j].message matches SignalingMessage::PeerList {
                                    room_id: rid,
                                    peers: ps,
                                } && rid@ == room_id@ && views_of(ps@) == views_of(peers@))
                        }),
                    decreases n - i,
                {
                    let ghost taken = self@.senders.take(i as int + 1);
                    proof {
                        assert(taken.drop_last() =~= self@.senders.take(i as int));
                        assert(taken.last() == self@.senders[i as int]);
                    }
                    let p = self.websocket_senders.key_at(i).clone();
                    let in_room: bool = match self.peer_rooms.get(p.as_str()) {
                        Some(r) => str_eq(r.as_str(), room_id.as_str()),
                        None => false,
                    };
                    if in_room {
                        let m = SignalingMessage::PeerList {
                            room_id: room_id.clone(),
                            peers: clone_strings(peers),
                        };
                        out.push(OutboundMessage { to: p, message: m });
                    }
                    i = i + 1;
                }
                proof {
                    assert(self@.senders.take(n as int) =~= self@.senders);
                }
                out
            },
            _ => Vec::new(),
        }
    }

    /// Disconnects, in order, every peer the liveness check reported as
    /// failed; peers in no room are skipped.  Returns one dispatch per
    /// disconnected peer.
    pub fn validate_connections(&mut self, failed: &Vec<String>) -> (r: Vec<Dispatch>)
        requires
            old(self).wf(),
        ensures
            final(self).wf(),
            final(self)@ == spec_validate(old(self)@, views_of(failed@)),
    {
        let ghost v0 = self@;
        let ghost ps = views_of(failed@);
        let n = failed.len();
        let mut r: Vec<Dispatch> = Vec::new();
        let mut i: usize = 0;
        proof {
            assert(ps.take(0) =~= Seq::<Seq<char>>::empty());
        }
        while i < n
            invariant
                self.wf(),
                n == failed@.len(),
                i <= n,
                ps == views_of(failed@),
                self@ == spec_validate(v0, ps.take(i as int)),
            decreases n - i,
        {
            let ghost taken = ps.take(i as int + 1);
            proof {
                assert(taken.drop_last() =~= ps.take(i as int));
                assert(taken.last() == ps[i as int]);
                assert(ps[i as int] == failed@[i as int]@);
            }
            match self.get_peer_room(failed[i].as_str()) {
                Some(rid) => {
                    let d = self.handle_disconnect(failed[i].as_str(), rid.as_str());
                    r.push(d);
                },
                None => {},
            }
            i = i + 1;
        }
        proof {
            assert(ps.take(n as int) =~= ps);
        }
        r
    }

    /// Routes one inbound frame to its handler, as the protocol
    /// defines: `Join` admits, `Offer`/`Answer` drive the SDP exchange,
    /// `IceCandidate` forwards and buffers, the three disconnect forms
    /// tear down, `CallRequest`/`CallResponse` are forwarded, and
    /// `RequestPeerList` is answered; server-to-client frames arriving
    /// inbound are dropped.
    #[allow(unused_variables)]
    pub fn handle_message(&mut self, msg: SignalingMessage, peer_id: &str) -> (r: Dispatch)
        requires
            old(self).wf(),
        ensures
            final(self).wf(),
            (msg matches SignalingMessage::Join { room_id, peer_id: joiner } ==> {
                &&& final(self)@ == spec_join(old(self)@, room_id@, joiner@)
                &&& (spec_join_admit(old(self)@, room_id@, joiner@) ==> spec_peer_list_broadcast(
                    r.outbound@,
                    room_id@,
                    assoc_value(
                        spec_join(old(self)@, room_id@, joiner@).rooms,
                        room_id@,
                    ).peers,
                ) && r.actions@.len() == 1 && (r.actions@[0] matches
                RelayAction::CreatePeerConnection { peer_id: pid } && pid@ == joiner@))
                &&& (spec_join_full(old(self)@, room_id@, joiner@) ==> r.outbound@.len() == 1
                    && r.outbound@[0].to@ == joiner@ && (r.outbound@[0].message matches
                SignalingMessage::MediaError { error_type, .. } && error_type@ == "room_full"@))
            }),
            (msg matches SignalingMessage::Disconnect { room_id, peer_id: leaver } ==>
                spec_disconnect_post(old(self)@, final(self)@, r.outbound@, leaver@, room_id@)),
            (msg matches SignalingMessage::EndCall { room_id, peer_id: leaver } ==>
                spec_disconnect_post(old(self)@, final(self)@, r.outbound@, leaver@, room_id@)),
            (msg matches SignalingMessage::PeerDisconnected { room_id, peer_id: leaver } ==>
                spec_disconnect_post(old(self)@, final(self)@, r.outbound@, leaver@, room_id@)),
            (msg matches SignalingMessage::Offer { room_id, sdp, from_peer, to_peer } ==> {
                &&& (!assoc_has_key(old(self)@.relays, to_peer@) ==> final(self)@ == old(self)@)
                &&& (assoc_has_key(old(self)@.relays, to_peer@) ==> spec_sdp_applied(
                    old(self)@,
                    final(self)@,
                    to_peer@,
                    sdp@,
                ) && spec_sdp_actions(
                    r.actions@,
                    to_peer@,
                    sdp@,
                    assoc_value(old(self)@.relays, to_peer@).buffer,
                    true,
                ))
            }),
            (msg matches SignalingMessage::Answer { room_id, sdp, from_peer, to_peer } ==> {
                &&& (!assoc_has_key(old(self)@.relays, to_peer@) ==> final(self)@ == old(self)@)
                &&& (assoc_has_key(old(self)@.relays, to_peer@) ==> spec_sdp_applied(
                    old(self)@,
                    final(self)@,
                    to_peer@,
                    sdp@,
                ) && spec_sdp_actions(
                    r.actions@,
                    to_peer@,
                    sdp@,
                    assoc_value(old(self)@.relays, to_peer@).buffer,
                    false,
                ))
            }),
            (msg matches SignalingMessage::RequestPeerList { room_id } ==> final(self)@
                == old(self)@ && r.outbound@.len() == 1 && r.outbound@[0].to@ == peer_id@),
            (msg matches SignalingMessage::CallRequest { room_id, from_peer, to_peers, sdp } ==> {
                let tgts = spec_registered_targets(old(self)@.senders, to_peers@);
                &&& final(self)@ == old(self)@
                &&& r.actions@ == Seq::<RelayAction>::empty()
                &&& r.outbound@.len() == tgts.len()
                &&& forall|i: int|
                    0 <= i < r.outbound@.len() ==> (#[trigger] r.outbound@[i]).to@ == tgts[i] && (
                    r.outbound@[i].message matches SignalingMessage::CallRequest {
                        room_id: rid,
                        from_peer: fp,
                        to_peers: tp,
                        sdp: s,
                    } && rid@ == room_id@ && fp@ == from_peer@ && views_of(tp@) == seq![tgts[i]]
                        && s@ == sdp@)
            }),
            (msg matches SignalingMessage::CallResponse {
                room_id,
                from_peer,
                to_peer,
                accepted,
                reason,
                sdp,
            } ==> {
                &&& final(self)@ == old(self)@
                &&& r.actions@ == Seq::<RelayAction>::empty()
                &&& (assoc_has_key(old(self)@.senders, to_peer@) ==> r.outbound@.len() == 1
                    && r.outbound@[0].to@ == to_peer@ && (r.outbound@[0].message matches
                SignalingMessage::CallResponse {
                    room_id: rid,
                    from_peer: fp,
                    to_peer: tp,
                    accepted: a,
                    reason: re,
                    sdp: s,
                } && rid@ == room_id@ && fp@ == from_peer@ && tp@ == to_peer@ && a == accepted
                    && re == reason && s == sdp))
                &&& (!assoc_has_key(old(self)@.senders, to_peer@) ==> r.outbound@ == Seq::<
                    OutboundMessage,
                >::empty())
            }),
            ((msg is PeerList || msg is MediaError || msg is ConnectionError)
                ==> final(self)@ == old(self)@ && r.outbound@ == Seq::<OutboundMessage>::empty()
                && r.actions@ == Seq::<RelayAction>::empty()),
    {
        match msg {
            SignalingMessage::Join { room_id, peer_id: joiner } => {
                self.handle_join(room_id.as_str(), joiner.as_str())
            },
            SignalingMessage::Disconnect { room_id, peer_id: leaver } => {
                self.handle_disconnect(leaver.as_str(), room_id.as_str())
            },
            SignalingMessage::EndCall { room_id, peer_id: leaver } => {
                self.handle_disconnect(leaver.as_str(), room_id.as_str())
            },
            SignalingMessage::PeerDisconnected { room_id, peer_id: leaver } => {
                self.handle_disconnect(leaver.as_str(), room_id.as_str())
            },
            SignalingMessage::Offer { room_id, sdp, from_peer, to_peer } => {
                self.handle_offer(room_id, from_peer, to_peer, sdp)
            },
            SignalingMessage::Answer { room_id, sdp, from_peer, to_peer } => {
                self.handle_answer(room_id, from_peer, to_peer, sdp)
            },
            SignalingMessage::IceCandidate { room_id, candidate, from_peer, to_peer } => {
                self.handle_ice_candidate(room_id, from_peer, to_peer, candidate)
            },
            SignalingMessage::RequestPeerList { room_id } => {
                self.handle_peer_list_request(room_id, peer_id)
            },
            SignalingMessage::CallRequest { room_id, from_peer, to_peers, sdp } => {
                let ghost v0 = self@;
                let n = to_peers.len();
                let mut outbound: Vec<OutboundMessage> = Vec::new();
                let mut i: usize = 0;
                proof {
                    assert(to_peers@.take(0) =~= Seq::<String>::empty());
                    assert(outbound@.len() == spec_registered_targets(
                        v0.senders,
                        to_peers@.take(0),
                    ).len());
                }
                while i < n
                    invariant
                        self.wf(),
                        self@ == v0,
                        n == to_peers@.len(),
                        i <= n,
                        ({
                            let tgts = spec_registered_targets(v0.senders, to_peers@.take(i as int));
                            &&& outbound@.len() == tgts.len()
                            &&& forall|j: int|
                                0 <= j < outbound@.len() ==> (#[trigger] outbound@[j]).to@
                                    == tgts[j] && (outbound@[j].message matches
                                SignalingMessage::CallRequest {
                                    room_id: rid,
                                    from_peer: fp,
                                    to_peers: tp,
                                    sdp: s,
                                } && rid@ == room_id@ && fp@ == from_peer@ && views_of(tp@)
                                    == seq![tgts[j]] && s@ == sdp@)
                        }),
                    decreases n - i,
                {
                    let ghost taken = to_peers@.take(i as int + 1);
                    proof {
                        assert(taken.drop_last() =~= to_peers@.take(i as int));
                        assert(taken.last() == to_peers@[i as int]);
                    }
                    let target = to_peers[i].clone();
                    if self.websocket_senders.contains_key(target.as_str()) {
                        let mut single: Vec<String> = Vec::new();
                        single.push(target.clone());
                        proof {
                            assert(views_of(single@) =~= seq![to_peers@[i as int]@]);
                        }
                        let m = SignalingMessage::CallRequest {
                            room_id: room_id.clone(),
                            from_peer: from_peer.clone(),
                            to_peers: single,
                            sdp: sdp.clone(),
                        };
                        outbound.push(OutboundMessage { to: target, message: m });
                    }
                    i = i + 1;
                }
                proof {
                    assert(to_peers@.take(n as int) =~= to_peers@);
                }
                Dispatch { outbound, actions: Vec::new() }
            },
            SignalingMessage::CallResponse { room_id, from_peer, to_peer, accepted, reason, sdp } => {
                let mut outbound: Vec<OutboundMessage> = Vec::new();
                if self.websocket_senders.contains_key(to_peer.as_str()) {
                    let m = SignalingMessage::CallResponse {
                        room_id,
                        from_peer,
                        to_peer: to_peer.clone(),
                        accepted,
                        reason,
                        sdp,
                    };
                    outbound.push(OutboundMessage { to: to_peer, message: m });
                }
                Dispatch { outbound, actions: Vec::new() }
            },
            SignalingMessage::PeerList { .. } => Dispatch::empty(),
            SignalingMessage::MediaError { .. } => Dispatch::empty(),
            SignalingMessage::ConnectionError { .. } => Dispatch::empty(),
        }
    }
}

} // verus!
