//! Rooms and the room registry: ordered membership with a capacity
//! bound.

use vstd::prelude::*;
use vstd::string::*;
use crate::assoc::{AssocVec, assoc_has_key, assoc_value, assoc_insert, assoc_remove,
    unique_keys, lemma_assoc_insert_props, lemma_assoc_remove_props,
    lemma_extract_restore_is_insert};
use crate::error::Error;
use crate::strutil::str_eq;
use crate::types::views_of;

verus! {

/// The kinds of media a room may carry.
#[derive(Debug, Clone, Copy, PartialEq, Eq, Structural)]
pub enum MediaType {
    Audio,
    Video,
    Screen,
}

impl View for MediaType {
    type V = MediaType;

    open spec fn view(&self) -> MediaType {
        *self
    }
}

/// Per-room media policy.
#[derive(Debug, Clone)]
pub struct MediaSettings {
    pub max_participants: usize,
    pub allowed_media_types: Vec<MediaType>,
    pub bandwidth_limit: Option<u32>,
}

impl Default for MediaSettings {
    /// Ten participants, audio only, no bandwidth cap.
    fn default() -> (r: Self)
        ensures
            r.max_participants == 10,
            r.allowed_media_types@ == seq![MediaType::Audio],
            r.bandwidth_limit is None,
    {
        let mut allowed: Vec<MediaType> = Vec::new();
        allowed.push(MediaType::Audio);
        proof {
            assert(allowed@ =~= seq![MediaType::Audio]);
        }
        MediaSettings { max_participants: 10, allowed_media_types: allowed, bandwidth_limit: None }
    }
}

/// The observable state of one room.
#[verifier::ext_equal]
pub ghost struct RoomView {
    pub id: Seq<char>,
    pub peers: Seq<Seq<char>>,
    pub max_participants: nat,
    pub allowed_media_types: Seq<MediaType>,
    pub bandwidth_limit: Option<u32>,
    pub recording_enabled: bool,
}

/// `s` without every occurrence of `p`, keeping order.
pub open spec fn spec_remove_id(s: Seq<Seq<char>>, p: Seq<char>) -> Seq<Seq<char>>
    decreases s.len(),
{
    if s.len() == 0 {
        Seq::empty()
    } else {
        let rest = spec_remove_id(s.drop_last(), p);
        if s.last() == p {
            rest
        } else {
            rest.push(s.last())
        }
    }
}

/// A named call context with ordered membership.  Media relays live in
/// the relay registry; the room tracks who is in it.
#[derive(Debug, Clone)]
pub struct Room {
    pub id: String,
    pub peers: Vec<String>,
    pub media_settings: MediaSettings,
    pub recording_enabled: bool,
}

impl View for Room {
    type V = RoomView;

    open spec fn view(&self) -> RoomView {
        RoomView {
            id: self.id@,
            peers: views_of(self.peers@),
            max_participants: self.media_settings.max_participants as nat,
            allowed_media_types: self.media_settings.allowed_media_types@,
            bandwidth_limit: self.media_settings.bandwidth_limit,
            recording_enabled: self.recording_enabled,
        }
    }
}

/// No peer is listed twice.
pub open spec fn spec_room_wf(r: RoomView) -> bool {
    forall|i: int, j: int| 0 <= i < j < r.peers.len() ==> r.peers[i] != r.peers[j]
}

impl Room {
    /// No peer is listed twice.
    pub open spec fn wf(&self) -> bool {
        spec_room_wf(self@)
    }

    /// Admits `peer_id` unless the room is at capacity.  Success is
    /// owed exactly when the current membership is below the limit.
    pub fn add_peer(&mut self, peer_id: String) -> (r: Result<(), Error>)
        requires
            old(self).wf(),
            !old(self)@.peers.contains(peer_id@),
        ensures
            final(self).wf(),
            r is Ok <==> old(self)@.peers.len() < old(self)@.max_participants,
            r is Ok ==> final(self)@ == (RoomView { peers: old(self)@.peers.push(peer_id@), ..old(
                self,
            )@ }),
            r matches Err(e) ==> final(self)@ == old(self)@ && (e matches Error::Room(m) && m@
                == "Room is full"@),
    {
        let ghost v0 = self@;
        if self.peers.len() >= self.media_settings.max_participants {
            Err(Error::Room(String::from_str("Room is full")))
        } else {
            self.peers.push(peer_id);
            proof {
                assert(self@.peers =~= v0.peers.push(self.peers@.last()@));
                assert(self@ =~= (RoomView { peers: v0.peers.push(self.peers@.last()@), ..v0 }));
            }
            Ok(())
        }
    }

    /// Whether `peer_id` is in the room.
    pub fn has_peer(&self, peer_id: &str) -> (r: bool)
        ensures
            r == self@.peers.contains(peer_id@),
    {
        let n = self.peers.len();
        let mut i: usize = 0;
        while i < n
            invariant
                n == self@.peers.len(),
                i <= n,
                forall|j: int| 0 <= j < i ==> self@.peers[j] != peer_id@,
            decreases n - i,
        {
            if str_eq(self.peers[i].as_str(), peer_id) {
                proof {
                    assert(self@.peers[i as int] == peer_id@);
                }
                return true;
            }
            i = i + 1;
        }
        proof {
            if self@.peers.contains(peer_id@) {
                let w = choose|w: int| 0 <= w < self@.peers.len() && self@.peers[w] == peer_id@;
                assert(false);
            }
        }
        false
    }

    /// Removes every listing of `peer_id`, keeping order.
    pub fn remove_peer(&mut self, peer_id: &str)
        ensures
            final(self)@ == (RoomView { peers: spec_remove_id(old(self)@.peers, peer_id@), ..old(
                self,
            )@ }),
    {
        let ghost v0 = self@;
        let n = self.peers.len();
        let mut kept: Vec<String> = Vec::new();
        let mut i: usize = 0;
        proof {
            assert(v0.peers.take(0) =~= Seq::<Seq<char>>::empty());
            assert(views_of(kept@) =~= spec_remove_id(v0.peers.take(0), peer_id@));
        }
        while i < n
            invariant
                n == self.peers@.len(),
                views_of(self.peers@) == v0.peers,
                i <= n,
                views_of(kept@) =~= spec_remove_id(v0.peers.take(i as int), peer_id@),
            decreases n - i,
        {
            let ghost taken = v0.peers.take(i as int + 1);
            proof {
                assert(taken.drop_last() =~= v0.peers.take(i as int));
                assert(taken.last() == v0.peers[i as int]);
            }
            if !str_eq(self.peers[i].as_str(), peer_id) {
                kept.push(self.peers[i].clone());
            }
            proof {
                assert(views_of(kept@) =~= spec_remove_id(taken, peer_id@));
            }
            i = i + 1;
        }
        self.peers = kept;
        proof {
            assert(v0.peers.take(n as int) =~= v0.peers);
            assert(self@ =~= (RoomView { peers: spec_remove_id(v0.peers, peer_id@), ..v0 }));
        }
    }

    /// The membership, in insertion order.
    pub fn peer_ids(&self) -> (r: Vec<String>)
        ensures
            views_of(r@) == self@.peers,
    {
        let n = self.peers.len();
        let mut r: Vec<String> = Vec::new();
        let mut i: usize = 0;
        while i < n
            invariant
                n == self.peers@.len(),
                i <= n,
                r@.len() == i,
                forall|j: int| 0 <= j < i ==> #[trigger] r@[j]@ == self.peers@[j]@,
            decreases n - i,
        {
            r.push(self.peers[i].clone());
            i = i + 1;
        }
        proof {
            assert(views_of(r@) =~= self@.peers);
        }
        r
    }

    /// The peers whose relay should receive a track from `from_peer`:
    /// every other member, in room order.
    pub fn broadcast_track(&self, from_peer: &str) -> (targets: Vec<String>)
        ensures
            views_of(targets@) == spec_remove_id(self@.peers, from_peer@),
    {
        let n = self.peers.len();
        let mut targets: Vec<String> = Vec::new();
        let mut i: usize = 0;
        proof {
            assert(self@.peers.take(0) =~= Seq::<Seq<char>>::empty());
            assert(views_of(targets@) =~= spec_remove_id(self@.peers.take(0), from_peer@));
        }
        while i < n
            invariant
                n == self.peers@.len(),
                i <= n,
                views_of(targets@) =~= spec_remove_id(self@.peers.take(i as int), from_peer@),
            decreases n - i,
        {
            let ghost taken = self@.peers.take(i as int + 1);
            proof {
                assert(taken.drop_last() =~= self@.peers.take(i as int));
                assert(taken.last() == self@.peers[i as int]);
            }
            if !str_eq(self.peers[i].as_str(), from_peer) {
                targets.push(self.peers[i].clone());
            }
            proof {
                assert(views_of(targets@) =~= spec_remove_id(taken, from_peer@));
            }
            i = i + 1;
        }
        proof {
            assert(self@.peers.take(n as int) =~= self@.peers);
        }
        targets
    }
}

impl Default for Room {
    /// An unnamed empty room with default media settings.
    fn default() -> (r: Self)
        ensures
            r@.id == Seq::<char>::empty(),
            r@.peers == Seq::<Seq<char>>::empty(),
            r@.max_participants == 10,
            r@.allowed_media_types == seq![MediaType::Audio],
            r@.bandwidth_limit is None,
            r@.recording_enabled == false,
            r.wf(),
    {
        let r = Room {
            id: String::new(),
            peers: Vec::new(),
            media_settings: MediaSettings::default(),
            recording_enabled: false,
        };
        proof {
            assert(r@.peers =~= Seq::<Seq<char>>::empty());
        }
        r
    }
}

/// The registry of rooms, keyed by room id.
pub struct RoomManager {
    pub rooms: AssocVec<Room>,
}

/// A default room carrying `id`.
pub open spec fn spec_new_room(id: Seq<char>) -> RoomView {
    RoomView {
        id: id,
        peers: Seq::empty(),
        max_participants: 10,
        allowed_media_types: seq![MediaType::Audio],
        bandwidth_limit: None,
        recording_enabled: false,
    }
}

fn room_not_found_err(room_id: &str) -> (e: Error)
    ensures
        e matches Error::Room(m) && m@ == "Room "@ + room_id@ + " not found"@,
{
    let mut m = String::from_str("Room ");
    m.append(room_id);
    m.append(" not found");
    Error::Room(m)
}

fn room_exists_err(room_id: &str) -> (e: Error)
    ensures
        e matches Error::Room(m) && m@ == "Room "@ + room_id@ + " already exists"@,
{
    let mut m = String::from_str("Room ");
    m.append(room_id);
    m.append(" already exists");
    Error::Room(m)
}

fn new_room_with_id(room_id: &str) -> (r: Room)
    ensures
        r@ == spec_new_room(room_id@),
        r.wf(),
{
    let mut room = Room::default();
    room.id = room_id.to_owned();
    proof {
        assert(room@ =~= spec_new_room(room_id@));
    }
    room
}

impl RoomManager {
    pub open spec fn rooms_view(&self) -> Seq<(Seq<char>, RoomView)> {
        self.rooms@
    }

    /// Keys are unique, each room carries its key as id, and no room
    /// lists a peer twice.
    pub open spec fn wf(&self) -> bool {
        &&& unique_keys(self.rooms@)
        &&& forall|r: Seq<char>|
            #[trigger] assoc_has_key(self.rooms@, r) ==> assoc_value(self.rooms@, r).id == r
                && spec_room_wf(assoc_value(self.rooms@, r))
    }

    pub fn new() -> (r: Self)
        ensures
            r.wf(),
            r.rooms_view() == Seq::<(Seq<char>, RoomView)>::empty(),
    {
        RoomManager { rooms: AssocVec::new() }
    }

    /// Creates an empty room under `room_id`; refused when the id is
    /// taken.
    pub fn create_room(&mut self, room_id: String) -> (r: Result<(), Error>)
        requires
            old(self).wf(),
        ensures
            final(self).wf(),
            r is Ok <==> !assoc_has_key(old(self).rooms_view(), room_id@),
            r is Ok ==> final(self).rooms_view() == assoc_insert(
                old(self).rooms_view(),
                room_id@,
                spec_new_room(room_id@),
            ),
            r matches Err(e) ==> final(self).rooms_view() == old(self).rooms_view() && (
            e matches Error::Room(m) && m@ == "Room "@ + room_id@ + " already exists"@),
    {
        let ghost s0 = self.rooms@;
        if self.rooms.contains_key(room_id.as_str()) {
            Err(room_exists_err(room_id.as_str()))
        } else {
            let room = new_room_with_id(room_id.as_str());
            self.rooms.insert(room_id, room);
            proof {
                lemma_assoc_insert_props(s0, self.rooms@.last().0, self.rooms@.last().1);
            }
            Ok(())
        }
    }

    /// Ensures a room exists under `room_id`, creating a default one on
    /// first use.
    pub fn create_or_get(&mut self, room_id: &str)
        requires
            old(self).wf(),
        ensures
            final(self).wf(),
            assoc_has_key(old(self).rooms_view(), room_id@) ==> final(self).rooms_view() == old(
                self,
            ).rooms_view(),
            !assoc_has_key(old(self).rooms_view(), room_id@) ==> final(self).rooms_view()
                == assoc_insert(old(self).rooms_view(), room_id@, spec_new_room(room_id@)),
            assoc_has_key(final(self).rooms_view(), room_id@),
    {
        let ghost s0 = self.rooms@;
        if !self.rooms.contains_key(room_id) {
            let room = new_room_with_id(room_id);
            self.rooms.insert(room_id.to_owned(), room);
            proof {
                lemma_assoc_insert_props(s0, room_id@, self.rooms@.last().1);
            }
        }
    }

    pub fn get_room(&self, room_id: &str) -> (r: Result<&Room, Error>)
        requires
            self.wf(),
        ensures
            r matches Ok(room) ==> assoc_has_key(self.rooms_view(), room_id@) && room@
                == assoc_value(self.rooms_view(), room_id@),
            r matches Err(e) ==> !assoc_has_key(self.rooms_view(), room_id@) && (
            e matches Error::Room(m) && m@ == "Room "@ + room_id@ + " not found"@),
    {
        match self.rooms.get(room_id) {
            Some(room) => Ok(room),
            None => Err(room_not_found_err(room_id)),
        }
    }

    /// Drops the room under `room_id`.
    pub fn remove_room(&mut self, room_id: &str) -> (r: Result<(), Error>)
        requires
            old(self).wf(),
        ensures
            final(self).wf(),
            r is Ok <==> assoc_has_key(old(self).rooms_view(), room_id@),
            final(self).rooms_view() == assoc_remove(old(self).rooms_view(), room_id@),
            r matches Err(e) ==> (e matches Error::Room(m) && m@ == "Room "@ + room_id@
                + " not found"@),
    {
        let ghost s0 = self.rooms@;
        match self.rooms.remove(room_id) {
            Some(_) => {
                proof {
                    lemma_assoc_remove_props(s0, room_id@);
                }
                Ok(())
            },
            None => Err(room_not_found_err(room_id)),
        }
    }

    /// Admits `peer_id` into `room_id`.  Succeeds exactly when the room
    /// exists and is not at capacity; a peer already present is left in
    /// place and reported as success.
    pub fn add_peer_to_room(&mut self, room_id: &str, peer_id: String) -> (r: Result<(), Error>)
        requires
            old(self).wf(),
        ensures
            final(self).wf(),
            ({
                let rooms0 = old(self).rooms_view();
                let had = assoc_has_key(rooms0, room_id@);
                let room0 = assoc_value(rooms0, room_id@);
                &&& (r is Ok <==> had && (room0.peers.contains(peer_id@) || room0.peers.len()
                    < room0.max_participants))
                &&& (!had ==> final(self).rooms_view() == rooms0 && (r matches Err(e)
                    && e matches Error::Room(m) && m@ == "Room "@ + room_id@ + " not found"@))
                &&& (had && room0.peers.contains(peer_id@) ==> final(self).rooms_view() == rooms0)
                &&& (had && !room0.peers.contains(peer_id@) && room0.peers.len()
                    < room0.max_participants ==> final(self).rooms_view() == assoc_insert(
                    rooms0,
                    room_id@,
                    RoomView { peers: room0.peers.push(peer_id@), ..room0 },
                ))
                &&& (had && !room0.peers.contains(peer_id@) && room0.peers.len()
                    >= room0.max_participants ==> final(self).rooms_view() == rooms0 && (
                r matches Err(e) && e matches Error::Room(m) && m@ == "Room is full"@))
            }),
    {
        let ghost s0 = self.rooms@;
        let admissible: Option<(bool, bool)> = match self.rooms.get(room_id) {
            Some(room) => Some(
                (
                    room.has_peer(peer_id.as_str()),
                    room.peers.len() < room.media_settings.max_participants,
                ),
            ),
            None => None,
        };
        match admissible {
            None => Err(room_not_found_err(room_id)),
            Some((true, _)) => Ok(()),
            Some((false, false)) => Err(Error::Room(String::from_str("Room is full"))),
            Some((false, true)) => {
                match self.rooms.extract(room_id) {
                    Some((i, mut room)) => {
                        proof {
                            lemma_assoc_remove_props(s0, room_id@);
                            assert(assoc_remove(s0, room_id@) == s0.remove(i as int));
                        }
                        let res = room.add_peer(peer_id);
                        self.rooms.restore(i, room_id.to_owned(), room);
                        proof {
                            lemma_extract_restore_is_insert(s0, room_id@, self.rooms@[i as int].1);
                            lemma_assoc_insert_props(s0, room_id@, self.rooms@[i as int].1);
                        }
                        res
                    },
                    None => Err(room_not_found_err(room_id)),
                }
            },
        }
    }

    /// Removes `peer_id` from `room_id`'s membership; fails only when
    /// the room does not exist.
    pub fn remove_peer_from_room(&mut self, room_id: &str, peer_id: &str) -> (r: Result<
        (),
        Error,
    >)
        requires
            old(self).wf(),
        ensures
            final(self).wf(),
            r is Ok <==> assoc_has_key(old(self).rooms_view(), room_id@),
            r is Err ==> final(self).rooms_view() == old(self).rooms_view(),
            r is Ok ==> {
                let rooms0 = old(self).rooms_view();
                let room0 = assoc_value(rooms0, room_id@);
                final(self).rooms_view() == assoc_insert(
                    rooms0,
                    room_id@,
                    RoomView { peers: spec_remove_id(room0.peers, peer_id@), ..room0 },
                )
            },
            r matches Err(e) ==> (e matches Error::Room(m) && m@ == "Room "@ + room_id@
                + " not found"@),
    {
        let ghost s0 = self.rooms@;
        match self.rooms.extract(room_id) {
            Some((i, mut room)) => {
                proof {
                    lemma_assoc_remove_props(s0, room_id@);
                    assert(assoc_remove(s0, room_id@) == s0.remove(i as int));
                }
                room.remove_peer(peer_id);
                proof {
                    lemma_remove_id_unique(assoc_value(s0, room_id@).peers, peer_id@);
                }
                self.rooms.restore(i, room_id.to_owned(), room);
                proof {
                    lemma_extract_restore_is_insert(s0, room_id@, self.rooms@[i as int].1);
                    lemma_assoc_insert_props(s0, room_id@, self.rooms@[i as int].1);
                }
                Ok(())
            },
            None => Err(room_not_found_err(room_id)),
        }
    }
}

/// Removing an id keeps the remaining listing duplicate-free, drops the
/// id entirely, and keeps everything else.
pub proof fn lemma_remove_id_unique(s: Seq<Seq<char>>, p: Seq<char>)
    requires
        forall|i: int, j: int| 0 <= i < j < s.len() ==> s[i] != s[j],
    ensures
        forall|i: int, j: int|
            0 <= i < j < spec_remove_id(s, p).len() ==> spec_remove_id(s, p)[i]
                != spec_remove_id(s, p)[j],
        !spec_remove_id(s, p).contains(p),
        forall|q: Seq<char>|
            q != p ==> #[trigger] spec_remove_id(s, p).contains(q) == s.contains(q),
    decreases s.len(),
{
    let t = spec_remove_id(s, p);
    if s.len() == 0 {
        assert forall|q: Seq<char>| q != p implies #[trigger] t.contains(q) == s.contains(q) by {
            assert(!t.contains(q));
            assert(!s.contains(q));
        }
    } else {
        let s1 = s.drop_last();
        assert(forall|i: int, j: int| 0 <= i < j < s1.len() ==> s1[i] != s1[j]);
        lemma_remove_id_unique(s1, p);
        let t1 = spec_remove_id(s1, p);
        lemma_remove_id_subset(s1, p);
        if s.last() == p {
            assert(t == t1);
            assert forall|q: Seq<char>| q != p implies #[trigger] t.contains(q) == s.contains(
                q,
            ) by {
                if s.contains(q) {
                    let w = choose|w: int| 0 <= w < s.len() && s[w] == q;
                    assert(w < s.len() - 1);
                    assert(s1[w] == q);
                    assert(s1.contains(q));
                }
                if t.contains(q) {
                    assert(s1.contains(q));
                    let w = choose|w: int| 0 <= w < s1.len() && s1[w] == q;
                    assert(s[w] == q);
                }
            }
        } else {
            assert(t == t1.push(s.last()));
            assert forall|i: int, j: int| 0 <= i < j < t.len() implies t[i] != t[j] by {
                if j < t.len() - 1 {
                    assert(t1[i] == t[i] && t1[j] == t[j]);
                } else {
                    assert(t[i] == t1[i]);
                    assert(t1.contains(t1[i]));
                    assert(s1.contains(t1[i]));
                    let w = choose|w: int| 0 <= w < s1.len() && s1[w] == t1[i];
                    assert(s[w] == t1[i]);
                    assert(s[w] != s.last());
                }
            }
            assert(!t.contains(p)) by {
                if t.contains(p) {
                    let w = choose|w: int| 0 <= w < t.len() && t[w] == p;
                    if w < t.len() - 1 {
                        assert(t1[w] == p);
                        assert(t1.contains(p));
                    }
                }
            }
            assert forall|q: Seq<char>| q != p implies #[trigger] t.contains(q) == s.contains(
                q,
            ) by {
                if s.contains(q) {
                    let w = choose|w: int| 0 <= w < s.len() && s[w] == q;
                    if w < s.len() - 1 {
                        assert(s1[w] == q);
                        assert(s1.contains(q));
                        assert(t1.contains(q));
                        let u = choose|u: int| 0 <= u < t1.len() && t1[u] == q;
                        assert(t[u] == q);
                    } else {
                        assert(t.last() == q);
                    }
                }
                if t.contains(q) {
                    let w = choose|w: int| 0 <= w < t.len() && t[w] == q;
                    if w < t.len() - 1 {
                        assert(t1[w] == q);
                        assert(t1.contains(q));
                        assert(s1.contains(q));
                        let u = choose|u: int| 0 <= u < s1.len() && s1[u] == q;
                        assert(s[u] == q);
                    } else {
                        assert(s.last() == q);
                        assert(s.contains(q));
                    }
                }
            }
        }
    }
}

/// Removing an id that is not listed changes nothing.
pub proof fn lemma_remove_id_absent(s: Seq<Seq<char>>, p: Seq<char>)
    requires
        !s.contains(p),
    ensures
        spec_remove_id(s, p) == s,
    decreases s.len(),
{
    if s.len() > 0 {
        assert(s.contains(s.last())) by {
            assert(s[s.len() - 1] == s.last());
        }
        assert(s.last() != p);
        assert(!s.drop_last().contains(p)) by {
            if s.drop_last().contains(p) {
                let w = choose|w: int| 0 <= w < s.drop_last().len() && s.drop_last()[w] == p;
                assert(s[w] == p);
            }
        }
        lemma_remove_id_absent(s.drop_last(), p);
        assert(spec_remove_id(s, p) =~= s);
    } else {
        assert(spec_remove_id(s, p) =~= s);
    }
}

/// Everything the removal keeps was in the original listing.
proof fn lemma_remove_id_subset(s: Seq<Seq<char>>, p: Seq<char>)
    ensures
        forall|q: Seq<char>| #[trigger] spec_remove_id(s, p).contains(q) ==> s.contains(q),
    decreases s.len(),
{
    let t = spec_remove_id(s, p);
    if s.len() > 0 {
        let s1 = s.drop_last();
        lemma_remove_id_subset(s1, p);
        let t1 = spec_remove_id(s1, p);
        assert forall|q: Seq<char>| #[trigger] t.contains(q) implies s.contains(q) by {
            let w = choose|w: int| 0 <= w < t.len() && t[w] == q;
            if s.last() == p {
                assert(t1.contains(q));
                assert(s1.contains(q));
                let u = choose|u: int| 0 <= u < s1.len() && s1[u] == q;
                assert(s[u] == q);
            } else {
                if w < t.len() - 1 {
                    assert(t1[w] == q);
                    assert(t1.contains(q));
                    assert(s1.contains(q));
                    let u = choose|u: int| 0 <= u < s1.len() && s1[u] == q;
                    assert(s[u] == q);
                } else {
                    assert(s.last() == q);
                }
            }
        }
    }
}

} // verus!
