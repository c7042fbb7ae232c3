//! The server-side media relay, modelled as the decisions it makes.
//!
//! A relay owns the ICE candidate buffer of one peer connection.  The
//! surrounding transport performs the actual peer-connection calls; this
//! module decides, and records, which candidates are handed over and
//! when: never before a remote description is set, and afterwards in
//! first-in first-out order.

use vstd::prelude::*;
use vstd::string::*;
use crate::assoc::{AssocVec, assoc_has_key, assoc_value, assoc_insert, assoc_remove,
    assoc_remove_all, keys_except, unique_keys, lemma_assoc_insert_props,
    lemma_assoc_remove_props};
use crate::error::Error;
use crate::strutil::{str_eq, decimal_string, spec_decimal};
use crate::types::views_of;

verus! {

/// The observable state of one relay.
#[verifier::ext_equal]
pub ghost struct RelayView {
    pub peer_id: Seq<char>,
    pub remote_description: Option<Seq<char>>,
    pub buffer: Seq<Seq<char>>,
    pub applied: Seq<Seq<char>>,
    pub has_audio_track: bool,
    pub has_video_track: bool,
    pub has_data_channel: bool,
}

/// A freshly created relay: no remote description, nothing buffered or
/// applied, an audio track prepared for fan-out.
pub open spec fn spec_new_relay(peer_id: Seq<char>) -> RelayView {
    RelayView {
        peer_id: peer_id,
        remote_description: None,
        buffer: Seq::empty(),
        applied: Seq::empty(),
        has_audio_track: true,
        has_video_track: false,
        has_data_channel: false,
    }
}

/// Adding a candidate: buffered while no remote description is set,
/// applied immediately otherwise.
pub open spec fn spec_add_ice(r: RelayView, c: Seq<char>) -> RelayView {
    if r.remote_description is None {
        RelayView { buffer: r.buffer.push(c), ..r }
    } else {
        RelayView { applied: r.applied.push(c), ..r }
    }
}

/// Setting the remote description drains the buffer, oldest first.
pub open spec fn spec_set_remote(r: RelayView, d: Seq<char>) -> RelayView {
    RelayView {
        remote_description: Some(d),
        buffer: Seq::empty(),
        applied: r.applied + r.buffer,
        ..r
    }
}

/// Draining alone: everything buffered is applied, oldest first.
pub open spec fn spec_drain(r: RelayView) -> RelayView {
    RelayView { buffer: Seq::empty(), applied: r.applied + r.buffer, ..r }
}

/// One peer's server-side relay.
pub struct MediaRelay {
    pub peer_id: String,
    remote_description: Option<String>,
    ice_candidate_buffer: Vec<String>,
    applied_candidates: Vec<String>,
    audio_track: bool,
    video_track: bool,
    data_channel: bool,
}

impl View for MediaRelay {
    type V = RelayView;

    closed spec fn view(&self) -> RelayView {
        RelayView {
            peer_id: self.peer_id@,
            remote_description: match self.remote_description {
                Some(s) => Some(s@),
                None => None,
            },
            buffer: views_of(self.ice_candidate_buffer@),
            applied: views_of(self.applied_candidates@),
            has_audio_track: self.audio_track,
            has_video_track: self.video_track,
            has_data_channel: self.data_channel,
        }
    }
}

impl MediaRelay {
    pub fn new(peer_id: String) -> (r: Self)
        ensures
            r@ == spec_new_relay(peer_id@),
    {
        let r = MediaRelay {
            peer_id,
            remote_description: None,
            ice_candidate_buffer: Vec::new(),
            applied_candidates: Vec::new(),
            audio_track: true,
            video_track: false,
            data_channel: false,
        };
        proof {
            assert(r@ =~= spec_new_relay(r.peer_id@));
        }
        r
    }

    /// Whether a remote description has been set.
    pub fn has_remote_description(&self) -> (r: bool)
        ensures
            r == (self@.remote_description is Some),
    {
        self.remote_description.is_some()
    }

    /// Appends `candidate` to the buffer unconditionally.
    pub fn buffer_ice_candidate(&mut self, candidate: String)
        ensures
            final(self)@ == (RelayView { buffer: old(self)@.buffer.push(candidate@), ..old(
                self,
            )@ }),
    {
        let ghost v0 = self@;
        self.ice_candidate_buffer.push(candidate);
        proof {
            assert(views_of(self.ice_candidate_buffer@) =~= v0.buffer.push(
                self.ice_candidate_buffer@.last()@,
            ));
            assert(self@ =~= (RelayView { buffer: v0.buffer.push(
                self.ice_candidate_buffer@.last()@,
            ), ..v0 }));
        }
    }

    /// Buffers the candidate while no remote description is set, and
    /// otherwise records it as applied and returns it for the peer
    /// connection to take.
    pub fn add_ice_candidate(&mut self, candidate: String) -> (r: Option<String>)
        ensures
            final(self)@ == spec_add_ice(old(self)@, candidate@),
            match r {
                Some(c) => old(self)@.remote_description is Some && c@ == candidate@,
                None => old(self)@.remote_description is None,
            },
    {
        let ghost v0 = self@;
        if self.remote_description.is_none() {
            self.ice_candidate_buffer.push(candidate);
            proof {
                assert(views_of(self.ice_candidate_buffer@) =~= v0.buffer.push(
                    self.ice_candidate_buffer@.last()@,
                ));
                assert(self@ =~= spec_add_ice(v0, self.ice_candidate_buffer@.last()@));
            }
            None
        } else {
            let out = candidate.clone();
            self.applied_candidates.push(candidate);
            proof {
                assert(views_of(self.applied_candidates@) =~= v0.applied.push(
                    self.applied_candidates@.last()@,
                ));
                assert(self@ =~= spec_add_ice(v0, self.applied_candidates@.last()@));
            }
            Some(out)
        }
    }

    /// Records every buffered candidate as applied, oldest first, and
    /// returns them in that order for the peer connection to take.
    pub fn add_buffered_candidates(&mut self) -> (drained: Vec<String>)
        ensures
            final(self)@ == spec_drain(old(self)@),
            views_of(drained@) == old(self)@.buffer,
    {
        let ghost v0 = self@;
        let ghost ap_len = self.applied_candidates@.len() as int;
        let n = self.ice_candidate_buffer.len();
        let mut drained: Vec<String> = Vec::new();
        let mut i: usize = 0;
        while i < n
            invariant
                n == self.ice_candidate_buffer@.len(),
                i <= n,
                views_of(self.ice_candidate_buffer@) == v0.buffer,
                ap_len == v0.applied.len(),
                self.applied_candidates@.len() == ap_len + i,
                forall|j: int|
                    0 <= j < ap_len ==> #[trigger] self.applied_candidates@[j]@ == v0.applied[j],
                forall|j: int|
                    0 <= j < i ==> #[trigger] self.applied_candidates@[ap_len + j]@
                        == v0.buffer[j],
                drained@.len() == i,
                forall|j: int| 0 <= j < i ==> #[trigger] drained@[j]@ == v0.buffer[j],
                self.peer_id@ == v0.peer_id,
                (match self.remote_description {
                    Some(s) => Some(s@),
                    None => None,
                }) == v0.remote_description,
                self.audio_track == v0.has_audio_track,
                self.video_track == v0.has_video_track,
                self.data_channel == v0.has_data_channel,
            decreases n - i,
        {
            let c = self.ice_candidate_buffer[i].clone();
            proof {
                assert(views_of(self.ice_candidate_buffer@)[i as int] == v0.buffer[i as int]);
                assert(c@ == v0.buffer[i as int]);
            }
            let c2 = c.clone();
            self.applied_candidates.push(c);
            drained.push(c2);
            i = i + 1;
        }
        proof {
            assert(v0.buffer.len() == n);
        }
        self.ice_candidate_buffer = Vec::new();
        proof {
            assert(views_of(self.ice_candidate_buffer@) =~= Seq::<Seq<char>>::empty());
            assert forall|j: int|
                0 <= j < self.applied_candidates@.len() implies #[trigger] self.applied_candidates@[j]@
                == (v0.applied + v0.buffer)[j] by {
                if j >= ap_len {
                    let m = j - ap_len;
                    assert(self.applied_candidates@[ap_len + m]@ == v0.buffer[m]);
                }
            }
            assert(views_of(self.applied_candidates@) =~= v0.applied + v0.buffer);
            assert(self@ =~= spec_drain(v0));
            assert(views_of(drained@) =~= v0.buffer);
        }
        drained
    }

    /// Sets the remote description and drains the buffer, oldest first;
    /// the returned candidates are what the peer connection must now
    /// take, in order.
    pub fn set_remote_description(&mut self, sdp: String) -> (drained: Vec<String>)
        ensures
            final(self)@ == spec_set_remote(old(self)@, sdp@),
            views_of(drained@) == old(self)@.buffer,
    {
        let ghost v0 = self@;
        self.remote_description = Some(sdp);
        proof {
            assert(self@ =~= (RelayView {
                remote_description: self@.remote_description,
                ..v0
            }));
        }
        let drained = self.add_buffered_candidates();
        proof {
            assert(self@ =~= spec_set_remote(v0, self@.remote_description->0));
        }
        drained
    }

    /// Alias used after an externally observed remote-description set.
    pub fn handle_remote_description_set(&mut self) -> (drained: Vec<String>)
        ensures
            final(self)@ == spec_drain(old(self)@),
            views_of(drained@) == old(self)@.buffer,
    {
        self.add_buffered_candidates()
    }

    /// Marks the signaling data channel as open.
    pub fn set_data_channel(&mut self)
        ensures
            final(self)@ == (RelayView { has_data_channel: true, ..old(self)@ }),
    {
        let ghost v0 = self@;
        self.data_channel = true;
        proof {
            assert(self@ =~= (RelayView { has_data_channel: true, ..v0 }));
        }
    }

    /// A signal can be sent iff the data channel is open.
    pub fn send_signal(&self) -> (r: Result<(), Error>)
        ensures
            r is Ok <==> self@.has_data_channel,
            r matches Err(e) ==> e matches Error::Peer(m) && m@ == "No data channel available"@,
    {
        if self.data_channel {
            Ok(())
        } else {
            Err(Error::Peer(String::from_str("No data channel available")))
        }
    }
}

/// ICE buffering, end to end: a candidate added before the remote
/// description is applied exactly once when the description arrives,
/// after everything buffered before it and in the original order.
pub proof fn lemma_ice_buffering(r0: RelayView, c: Seq<char>, d: Seq<char>)
    requires
        r0.remote_description is None,
    ensures
        spec_set_remote(spec_add_ice(r0, c), d).applied == r0.applied + r0.buffer.push(c),
        spec_set_remote(spec_add_ice(r0, c), d).buffer == Seq::<Seq<char>>::empty(),
{
    let r1 = spec_add_ice(r0, c);
    assert(r1.buffer == r0.buffer.push(c));
    assert(spec_set_remote(r1, d).applied =~= r0.applied + r0.buffer.push(c));
}

/// A snapshot of one peer connection's media counters.  The timestamp
/// is seconds since the Unix epoch.
#[derive(Debug, Clone, Copy, PartialEq, Eq, Structural)]
pub struct MediaStats {
    pub packets_received: u64,
    pub packets_sent: u64,
    pub bytes_received: u64,
    pub bytes_sent: u64,
    pub last_updated: u64,
}

/// One entry of a peer connection's stats report.
#[derive(Debug, Clone, Copy, PartialEq, Eq, Structural)]
pub enum RtpStatsReport {
    InboundRtp { packets_received: u64, bytes_received: u64 },
    OutboundRtp { packets_sent: u64, bytes_sent: u64 },
    Other,
}

pub open spec fn packets_received_of(r: RtpStatsReport) -> nat {
    match r {
        RtpStatsReport::InboundRtp { packets_received, .. } => packets_received as nat,
        _ => 0,
    }
}

pub open spec fn bytes_received_of(r: RtpStatsReport) -> nat {
    match r {
        RtpStatsReport::InboundRtp { bytes_received, .. } => bytes_received as nat,
        _ => 0,
    }
}

pub open spec fn packets_sent_of(r: RtpStatsReport) -> nat {
    match r {
        RtpStatsReport::OutboundRtp { packets_sent, .. } => packets_sent as nat,
        _ => 0,
    }
}

pub open spec fn bytes_sent_of(r: RtpStatsReport) -> nat {
    match r {
        RtpStatsReport::OutboundRtp { bytes_sent, .. } => bytes_sent as nat,
        _ => 0,
    }
}

/// The four RTP totals of a report sequence: packets received, packets
/// sent, bytes received, bytes sent.
pub open spec fn spec_media_totals(s: Seq<RtpStatsReport>) -> (nat, nat, nat, nat)
    decreases s.len(),
{
    if s.len() == 0 {
        (0, 0, 0, 0)
    } else {
        let t = spec_media_totals(s.drop_last());
        (
            t.0 + packets_received_of(s.last()),
            t.1 + packets_sent_of(s.last()),
            t.2 + bytes_received_of(s.last()),
            t.3 + bytes_sent_of(s.last()),
        )
    }
}

/// Extending a prefix by one report adds that report's counters.
proof fn lemma_media_totals_take_step(s: Seq<RtpStatsReport>, i: int)
    requires
        0 <= i < s.len(),
    ensures
        spec_media_totals(s.take(i + 1)).0 == spec_media_totals(s.take(i)).0
            + packets_received_of(s[i]),
        spec_media_totals(s.take(i + 1)).1 == spec_media_totals(s.take(i)).1 + packets_sent_of(
            s[i],
        ),
        spec_media_totals(s.take(i + 1)).2 == spec_media_totals(s.take(i)).2 + bytes_received_of(
            s[i],
        ),
        spec_media_totals(s.take(i + 1)).3 == spec_media_totals(s.take(i)).3 + bytes_sent_of(
            s[i],
        ),
{
    assert(s.take(i + 1).drop_last() =~= s.take(i));
    assert(s.take(i + 1).last() == s[i]);
}

/// A prefix's totals never exceed the whole sequence's.
proof fn lemma_media_totals_take_le(s: Seq<RtpStatsReport>, i: int)
    requires
        0 <= i <= s.len(),
    ensures
        spec_media_totals(s.take(i)).0 <= spec_media_totals(s).0,
        spec_media_totals(s.take(i)).1 <= spec_media_totals(s).1,
        spec_media_totals(s.take(i)).2 <= spec_media_totals(s).2,
        spec_media_totals(s.take(i)).3 <= spec_media_totals(s).3,
    decreases s.len() - i,
{
    if i < s.len() {
        lemma_media_totals_take_step(s, i);
        lemma_media_totals_take_le(s, i + 1);
    } else {
        assert(s.take(i) =~= s);
    }
}

impl MediaRelay {
    /// Sums inbound and outbound RTP counters over a stats report.
    pub fn get_stats(&self, reports: &Vec<RtpStatsReport>, timestamp: u64) -> (r: MediaStats)
        requires
            spec_media_totals(reports@).0 <= u64::MAX,
            spec_media_totals(reports@).1 <= u64::MAX,
            spec_media_totals(reports@).2 <= u64::MAX,
            spec_media_totals(reports@).3 <= u64::MAX,
        ensures
            r.packets_received == spec_media_totals(reports@).0,
            r.packets_sent == spec_media_totals(reports@).1,
            r.bytes_received == spec_media_totals(reports@).2,
            r.bytes_sent == spec_media_totals(reports@).3,
            r.last_updated == timestamp,
    {
        let n = reports.len();
        let mut packets_received: u64 = 0;
        let mut packets_sent: u64 = 0;
        let mut bytes_received: u64 = 0;
        let mut bytes_sent: u64 = 0;
        let mut i: usize = 0;
        proof {
            assert(reports@.take(0) =~= Seq::<RtpStatsReport>::empty());
        }
        while i < n
            invariant
                n == reports@.len(),
                i <= n,
                packets_received == spec_media_totals(reports@.take(i as int)).0,
                packets_sent == spec_media_totals(reports@.take(i as int)).1,
                bytes_received == spec_media_totals(reports@.take(i as int)).2,
                bytes_sent == spec_media_totals(reports@.take(i as int)).3,
                spec_media_totals(reports@).0 <= u64::MAX,
                spec_media_totals(reports@).1 <= u64::MAX,
                spec_media_totals(reports@).2 <= u64::MAX,
                spec_media_totals(reports@).3 <= u64::MAX,
            decreases n - i,
        {
            proof {
                lemma_media_totals_take_step(reports@, i as int);
                lemma_media_totals_take_le(reports@, i as int + 1);
            }
            match reports[i] {
                RtpStatsReport::InboundRtp { packets_received: pr, bytes_received: br } => {
                    packets_received = packets_received + pr;
                    bytes_received = bytes_received + br;
                },
                RtpStatsReport::OutboundRtp { packets_sent: ps, bytes_sent: bs } => {
                    packets_sent = packets_sent + ps;
                    bytes_sent = bytes_sent + bs;
                },
                RtpStatsReport::Other => {},
            }
            i = i + 1;
        }
        proof {
            assert(reports@.take(n as int) =~= reports@);
        }
        MediaStats {
            packets_received,
            packets_sent,
            bytes_received,
            bytes_sent,
            last_updated: timestamp,
        }
    }
}

/// What the transport reports about one peer connection's liveness.
#[derive(Debug, Clone, Copy, PartialEq, Eq, Structural)]
pub enum RelayConnectionState {
    New,
    Connecting,
    Connected,
    Disconnected,
    Failed,
    Closed,
    Unspecified,
}

/// Stale connections are swept: disconnected, failed, or closed.
pub open spec fn spec_is_stale(s: RelayConnectionState) -> bool {
    s == RelayConnectionState::Disconnected || s == RelayConnectionState::Failed || s
        == RelayConnectionState::Closed
}

/// The ids whose reported state is stale, in report order.
pub open spec fn spec_stale_ids(s: Seq<(String, RelayConnectionState)>) -> Seq<Seq<char>>
    decreases s.len(),
{
    if s.len() == 0 {
        Seq::empty()
    } else {
        let rest = spec_stale_ids(s.drop_last());
        if spec_is_stale(s.last().1) {
            rest.push(s.last().0@)
        } else {
            rest
        }
    }
}

/// The registry mapping each peer to its media relay, together with the
/// ICE server configuration handed to new peer connections.
pub struct MediaRelayManager {
    pub relays: AssocVec<MediaRelay>,
    pub stun_server: String,
    pub stun_port: u16,
    pub turn_server: String,
    pub turn_port: u16,
    pub turn_username: String,
    pub turn_password: String,
}

impl MediaRelayManager {
    pub open spec fn relays_view(&self) -> Seq<(Seq<char>, RelayView)> {
        self.relays@
    }

    pub open spec fn wf(&self) -> bool {
        unique_keys(self.relays_view())
    }

    pub fn new(
        stun_server: String,
        stun_port: u16,
        turn_server: String,
        turn_port: u16,
        turn_username: String,
        turn_password: String,
    ) -> (r: Self)
        ensures
            r.wf(),
            r.relays_view() == Seq::<(Seq<char>, RelayView)>::empty(),
            r.stun_server@ == stun_server@,
            r.stun_port == stun_port,
            r.turn_server@ == turn_server@,
            r.turn_port == turn_port,
            r.turn_username@ == turn_username@,
            r.turn_password@ == turn_password@,
    {
        MediaRelayManager {
            relays: AssocVec::new(),
            stun_server,
            stun_port,
            turn_server,
            turn_port,
            turn_username,
            turn_password,
        }
    }

    /// The `stun:host:port` URL for the configured STUN server.
    pub fn stun_url(&self) -> (r: String)
        ensures
            r@ == "stun:"@ + self.stun_server@ + ":"@ + spec_decimal(self.stun_port as nat),
    {
        let mut r = String::from_str("stun:");
        r.append(self.stun_server.as_str());
        r.append(":");
        let port = decimal_string(self.stun_port as u64);
        r.append(port.as_str());
        r
    }

    /// The `turn:host:port` URL for the configured TURN server.
    pub fn turn_url(&self) -> (r: String)
        ensures
            r@ == "turn:"@ + self.turn_server@ + ":"@ + spec_decimal(self.turn_port as nat),
    {
        let mut r = String::from_str("turn:");
        r.append(self.turn_server.as_str());
        r.append(":");
        let port = decimal_string(self.turn_port as u64);
        r.append(port.as_str());
        r
    }

    /// Registers a fresh relay for `peer_id`; an existing relay for the
    /// same peer is replaced.
    pub fn create_relay(&mut self, peer_id: String)
        requires
            old(self).wf(),
        ensures
            final(self).wf(),
            final(self).relays_view() == assoc_insert(
                old(self).relays_view(),
                peer_id@,
                spec_new_relay(peer_id@),
            ),
    {
        let relay = MediaRelay::new(peer_id.clone());
        self.relays.insert(peer_id, relay);
    }

    /// Registers a fresh relay for a peer joining a room; the room
    /// membership itself is tracked by the room registry.
    #[allow(unused_variables)]
    pub fn add_peer(&mut self, room_id: &str, peer_id: String)
        requires
            old(self).wf(),
        ensures
            final(self).wf(),
            final(self).relays_view() == assoc_insert(
                old(self).relays_view(),
                peer_id@,
                spec_new_relay(peer_id@),
            ),
    {
        let relay = MediaRelay::new(peer_id.clone());
        self.relays.insert(peer_id, relay);
    }

    /// Drops the relay of `peer_id`; the caller closes the underlying
    /// peer connection when one was registered.
    pub fn remove_relay(&mut self, peer_id: &str) -> (had: bool)
        requires
            old(self).wf(),
        ensures
            final(self).wf(),
            final(self).relays_view() == assoc_remove(old(self).relays_view(), peer_id@),
            had == assoc_has_key(old(self).relays_view(), peer_id@),
    {
        match self.relays.remove(peer_id) {
            Some(_) => true,
            None => false,
        }
    }

    /// Drops `peer_id`'s relay and reports the peers that remain, in
    /// registry order.
    #[allow(unused_variables)]
    pub fn handle_peer_disconnect(&mut self, peer_id: &str, room_id: &str) -> (remaining: Vec<
        String,
    >)
        requires
            old(self).wf(),
        ensures
            final(self).wf(),
            final(self).relays_view() == assoc_remove(old(self).relays_view(), peer_id@),
            views_of(remaining@) == keys_except(old(self).relays_view(), peer_id@),
    {
        let remaining = self.peers_except(peer_id);
        self.relays.remove(peer_id);
        remaining
    }

    /// The registered peers other than `skip`, in registry order.
    fn peers_except(&self, skip: &str) -> (r: Vec<String>)
        ensures
            views_of(r@) == keys_except(self.relays_view(), skip@),
    {
        let n = self.relays.len();
        let mut r: Vec<String> = Vec::new();
        let mut i: usize = 0;
        proof {
            assert(self.relays_view().take(0) =~= Seq::<(Seq<char>, RelayView)>::empty());
            assert(views_of(r@) =~= keys_except(self.relays_view().take(0), skip@));
        }
        while i < n
            invariant
                n == self.relays_view().len(),
                i <= n,
                views_of(r@) =~= keys_except(self.relays_view().take(i as int), skip@),
            decreases n - i,
        {
            let ghost taken = self.relays_view().take(i as int + 1);
            proof {
                assert(taken.drop_last() =~= self.relays_view().take(i as int));
                assert(taken.last() == self.relays_view()[i as int]);
            }
            let key = self.relays.key_at(i);
            if !str_eq(key.as_str(), skip) {
                r.push(key.clone());
            }
            proof {
                assert(views_of(r@) =~= keys_except(taken, skip@));
            }
            i = i + 1;
        }
        proof {
            assert(self.relays_view().take(n as int) =~= self.relays_view());
        }
        r
    }

    /// The peers whose relay should receive a track from `from_peer`:
    /// everyone else, in registry order.
    pub fn broadcast_track(&self, from_peer: &str) -> (targets: Vec<String>)
        ensures
            views_of(targets@) == keys_except(self.relays_view(), from_peer@),
    {
        self.peers_except(from_peer)
    }

    /// Whether `to_peer` has a relay for a track to be forwarded to.
    #[allow(unused_variables)]
    pub fn forward_track(&self, from_peer: &str, to_peer: &str) -> (r: bool)
        ensures
            r == assoc_has_key(self.relays_view(), to_peer@),
    {
        self.relays.contains_key(to_peer)
    }

    pub fn get_relay(&self, peer_id: &str) -> (r: Option<&MediaRelay>)
        requires
            self.wf(),
        ensures
            match r {
                Some(m) => assoc_has_key(self.relays_view(), peer_id@) && m@ == assoc_value(
                    self.relays_view(),
                    peer_id@,
                ),
                None => !assoc_has_key(self.relays_view(), peer_id@),
            },
    {
        self.relays.get(peer_id)
    }

    pub fn get_active_peer_count(&self) -> (n: usize)
        ensures
            n == self.relays_view().len(),
    {
        self.relays.len()
    }

    /// Applies `set_remote_description` to `peer_id`'s relay and hands
    /// back the drained candidates, oldest first; `None` when the peer
    /// has no relay.
    pub fn relay_set_remote_description(&mut self, peer_id: &str, sdp: String) -> (r: Option<
        Vec<String>,
    >)
        requires
            old(self).wf(),
        ensures
            final(self).wf(),
            r is None ==> !assoc_has_key(old(self).relays_view(), peer_id@)
                && final(self).relays_view() == old(self).relays_view(),
            r matches Some(drained) ==> {
                &&& assoc_has_key(old(self).relays_view(), peer_id@)
                &&& views_of(drained@) == assoc_value(old(self).relays_view(), peer_id@).buffer
                &&& assoc_value(final(self).relays_view(), peer_id@) == spec_set_remote(
                    assoc_value(old(self).relays_view(), peer_id@),
                    sdp@,
                )
                &&& forall|q: Seq<char>| #[trigger]
                    assoc_has_key(final(self).relays_view(), q) == assoc_has_key(
                        old(self).relays_view(),
                        q,
                    )
                &&& forall|q: Seq<char>|
                    q != peer_id@ && assoc_has_key(old(self).relays_view(), q)
                        ==> #[trigger] assoc_value(final(self).relays_view(), q) == assoc_value(
                        old(self).relays_view(),
                        q,
                    )
            },
    {
        let ghost s0 = self.relays@;
        match self.relays.remove(peer_id) {
            Some(mut relay) => {
                let drained = relay.set_remote_description(sdp);
                self.relays.insert(peer_id.to_owned(), relay);
                proof {
                    lemma_assoc_remove_props(s0, peer_id@);
                    lemma_assoc_insert_props(assoc_remove(s0, peer_id@), peer_id@, self.relays@[
                        self.relays@.len() - 1].1);
                }
                Some(drained)
            },
            None => None,
        }
    }

    /// Routes a candidate to `peer_id`'s relay: buffered before the
    /// remote description, applied (and returned for the transport to
    /// take) afterwards; `None` when the peer has no relay.
    pub fn relay_add_ice_candidate(&mut self, peer_id: &str, candidate: String) -> (r: Option<
        Option<String>,
    >)
        requires
            old(self).wf(),
        ensures
            final(self).wf(),
            r is None ==> !assoc_has_key(old(self).relays_view(), peer_id@)
                && final(self).relays_view() == old(self).relays_view(),
            r matches Some(apply_now) ==> {
                &&& assoc_has_key(old(self).relays_view(), peer_id@)
                &&& assoc_value(final(self).relays_view(), peer_id@) == spec_add_ice(
                    assoc_value(old(self).relays_view(), peer_id@),
                    candidate@,
                )
                &&& (match apply_now {
                    Some(c) => assoc_value(old(self).relays_view(), peer_id@).remote_description
                        is Some && c@ == candidate@,
                    None => assoc_value(old(self).relays_view(), peer_id@).remote_description
                        is None,
                })
                &&& forall|q: Seq<char>| #[trigger]
                    assoc_has_key(final(self).relays_view(), q) == assoc_has_key(
                        old(self).relays_view(),
                        q,
                    )
                &&& forall|q: Seq<char>|
                    q != peer_id@ && assoc_has_key(old(self).relays_view(), q)
                        ==> #[trigger] assoc_value(final(self).relays_view(), q) == assoc_value(
                        old(self).relays_view(),
                        q,
                    )
            },
    {
        let ghost s0 = self.relays@;
        match self.relays.remove(peer_id) {
            Some(mut relay) => {
                let apply_now = relay.add_ice_candidate(candidate);
                self.relays.insert(peer_id.to_owned(), relay);
                proof {
                    lemma_assoc_remove_props(s0, peer_id@);
                    lemma_assoc_insert_props(assoc_remove(s0, peer_id@), peer_id@, self.relays@[
                        self.relays@.len() - 1].1);
                }
                Some(apply_now)
            },
            None => None,
        }
    }

    /// Sweeps the relays that the transport reports as disconnected,
    /// failed, or closed, and returns their ids for the transport to
    /// close.
    pub fn cleanup_stale_relays(&mut self, observed: &Vec<(String, RelayConnectionState)>) -> (
    stale: Vec<String>)
        requires
            old(self).wf(),
        ensures
            final(self).wf(),
            views_of(stale@) == spec_stale_ids(observed@),
            final(self).relays_view() == assoc_remove_all(
                old(self).relays_view(),
                spec_stale_ids(observed@),
            ),
    {
        let n = observed.len();
        let mut stale: Vec<String> = Vec::new();
        let mut i: usize = 0;
        proof {
            assert(observed@.take(0) =~= Seq::<(String, RelayConnectionState)>::empty());
            assert(views_of(stale@) =~= spec_stale_ids(observed@.take(0)));
        }
        while i < n
            invariant
                n == observed@.len(),
                i <= n,
                views_of(stale@) =~= spec_stale_ids(observed@.take(i as int)),
            decreases n - i,
        {
            let ghost taken = observed@.take(i as int + 1);
            proof {
                assert(taken.drop_last() =~= observed@.take(i as int));
                assert(taken.last() == observed@[i as int]);
            }
            let is_stale = match observed[i].1 {
                RelayConnectionState::Disconnected => true,
                RelayConnectionState::Failed => true,
                RelayConnectionState::Closed => true,
                _ => false,
            };
            if is_stale {
                stale.push(observed[i].0.clone());
            }
            proof {
                assert(views_of(stale@) =~= spec_stale_ids(taken));
            }
            i = i + 1;
        }
        proof {
            assert(observed@.take(n as int) =~= observed@);
        }
        let ghost ids = spec_stale_ids(observed@);
        let ghost r0 = self.relays@;
        let m = stale.len();
        let mut j: usize = 0;
        proof {
            assert(ids.take(0) =~= Seq::<Seq<char>>::empty());
        }
        while j < m
            invariant
                m == stale@.len(),
                j <= m,
                views_of(stale@) == ids,
                ids.len() == m,
                unique_keys(self.relays@),
                self.relays@ =~= assoc_remove_all(r0, ids.take(j as int)),
            decreases m - j,
        {
            let ghost taken = ids.take(j as int + 1);
            proof {
                assert(taken.drop_last() =~= ids.take(j as int));
                assert(taken.last() == ids[j as int]);
                assert(stale@[j as int]@ == ids[j as int]);
            }
            self.relays.remove(stale[j].as_str());
            j = j + 1;
        }
        proof {
            assert(ids.take(m as int) =~= ids);
        }
        stale
    }
}

} // verus!
