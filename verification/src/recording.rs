//! Call recording bookkeeping: which rooms are being recorded, one
//! RTP file per participant plus a JSON metadata sidecar.  The file
//! system work itself is returned as actions for the shell to perform.

use vstd::prelude::*;
use vstd::string::*;
use crate::assoc::{AssocVec, assoc_has_key, assoc_value, assoc_insert, unique_keys,
    lemma_assoc_insert_props, lemma_extract_restore_is_insert};

verus! {

/// The RTP file name for one participant of one recorded call.
pub open spec fn spec_rtp_filename(
    timestamp: Seq<char>,
    call_id: Seq<char>,
    peer_id: Seq<char>,
) -> Seq<char> {
    "call_"@ + timestamp + "_"@ + call_id + "_"@ + peer_id + ".rtp"@
}

/// The metadata sidecar name for one recorded call.
pub open spec fn spec_metadata_filename(timestamp: Seq<char>, call_id: Seq<char>) -> Seq<char> {
    "call_"@ + timestamp + "_"@ + call_id + "_metadata.json"@
}

fn rtp_filename(timestamp: &str, call_id: &str, peer_id: &str) -> (r: String)
    ensures
        r@ == spec_rtp_filename(timestamp@, call_id@, peer_id@),
{
    let mut r = String::from_str("call_");
    r.append(timestamp);
    r.append("_");
    r.append(call_id);
    r.append("_");
    r.append(peer_id);
    r.append(".rtp");
    r
}

fn metadata_filename(timestamp: &str, call_id: &str) -> (r: String)
    ensures
        r@ == spec_metadata_filename(timestamp@, call_id@),
{
    let mut r = String::from_str("call_");
    r.append(timestamp);
    r.append("_");
    r.append(call_id);
    r.append("_metadata.json");
    r
}

/// The observable record of one participant.
#[verifier::ext_equal]
pub ghost struct ParticipantInfoView {
    pub peer_id: Seq<char>,
    pub join_time: Seq<char>,
    pub file_path: Seq<char>,
}

/// One participant of a recorded call.
#[derive(Debug, Clone)]
pub struct ParticipantInfo {
    pub peer_id: String,
    pub join_time: String,
    pub file_path: String,
}

impl View for ParticipantInfo {
    type V = ParticipantInfoView;

    open spec fn view(&self) -> ParticipantInfoView {
        ParticipantInfoView {
            peer_id: self.peer_id@,
            join_time: self.join_time@,
            file_path: self.file_path@,
        }
    }
}

/// The observable record of one recorded call.
#[verifier::ext_equal]
pub ghost struct RoomRecordingView {
    pub call_id: Seq<char>,
    pub timestamp: Seq<char>,
    pub participants: Seq<(Seq<char>, ParticipantInfoView)>,
}

/// One room's active recording.
pub struct RoomRecording {
    pub call_id: String,
    pub timestamp: String,
    pub participants: AssocVec<ParticipantInfo>,
}

impl View for RoomRecording {
    type V = RoomRecordingView;

    open spec fn view(&self) -> RoomRecordingView {
        RoomRecordingView {
            call_id: self.call_id@,
            timestamp: self.timestamp@,
            participants: self.participants@,
        }
    }
}

/// A file operation for the shell to perform, in order.
#[derive(Debug, Clone)]
pub enum FileAction {
    /// Create an empty RTP capture file.
    CreateFile { name: String },
    /// Write (or rewrite) the metadata sidecar.
    WriteMetadata { name: String },
}

/// The registry of active recordings, keyed by room id.
pub struct RecordingManager {
    pub active_recordings: AssocVec<RoomRecording>,
}

impl RecordingManager {
    pub open spec fn recordings_view(&self) -> Seq<(Seq<char>, RoomRecordingView)> {
        self.active_recordings@
    }

    pub open spec fn wf(&self) -> bool {
        &&& unique_keys(self.active_recordings@)
        &&& forall|i: int|
            0 <= i < self.active_recordings@.len() ==> unique_keys(
                (#[trigger] self.active_recordings@[i]).1.participants,
            )
    }

    pub fn new() -> (r: Self)
        ensures
            r.wf(),
            r.recordings_view() == Seq::<(Seq<char>, RoomRecordingView)>::empty(),
    {
        RecordingManager { active_recordings: AssocVec::new() }
    }

    /// Starts recording a call: one capture file per initial
    /// participant and the metadata sidecar.  A room already being
    /// recorded is left untouched and produces no file work.
    pub fn start_call_recording(
        &mut self,
        room_id: &str,
        call_id: String,
        timestamp: String,
        join_time: &str,
        initial_participants: &Vec<String>,
    ) -> (r: Vec<FileAction>)
        requires
            old(self).wf(),
            forall|i: int, j: int|
                0 <= i < j < initial_participants@.len() ==> initial_participants@[i]@
                    != initial_participants@[j]@,
        ensures
            final(self).wf(),
            assoc_has_key(old(self).recordings_view(), room_id@)
                ==> final(self).recordings_view() == old(self).recordings_view() && r@ == Seq::<
                FileAction,
            >::empty(),
            !assoc_has_key(old(self).recordings_view(), room_id@) ==> {
                &&& assoc_has_key(final(self).recordings_view(), room_id@)
                &&& ({
                    let rec = assoc_value(final(self).recordings_view(), room_id@);
                    &&& rec.call_id == call_id@
                    &&& rec.timestamp == timestamp@
                    &&& rec.participants.len() == initial_participants@.len()
                    &&& forall|i: int|
                        0 <= i < initial_participants@.len() ==> (#[trigger] rec.participants[i]).0
                            == initial_participants@[i]@ && rec.participants[i].1.file_path
                            == spec_rtp_filename(
                            timestamp@,
                            call_id@,
                            initial_participants@[i]@,
                        ) && rec.participants[i].1.join_time == join_time@
                })
                &&& r@.len() == initial_participants@.len() + 1
                &&& forall|i: int|
                    0 <= i < initial_participants@.len() ==> (#[trigger] r@[i] matches
                        FileAction::CreateFile { name } && name@ == spec_rtp_filename(
                        timestamp@,
                        call_id@,
                        initial_participants@[i]@,
                    ))
                &&& (r@[r@.len() - 1] matches FileAction::WriteMetadata { name } && name@
                    == spec_metadata_filename(timestamp@, call_id@))
            },
    {
        if self.active_recordings.contains_key(room_id) {
            let empty: Vec<FileAction> = Vec::new();
            proof {
                assert(empty@ =~= Seq::<FileAction>::empty());
            }
            return empty;
        }
        let ghost s0 = self.active_recordings@;
        let mut participants: AssocVec<ParticipantInfo> = AssocVec::new();
        let mut actions: Vec<FileAction> = Vec::new();
        let n = initial_participants.len();
        let mut i: usize = 0;
        while i < n
            invariant
                n == initial_participants@.len(),
                i <= n,
                participants.wf(),
                participants@.len() == i,
                actions@.len() == i,
                forall|m: int, j: int|
                    0 <= m < j < initial_participants@.len() ==> initial_participants@[m]@
                        != initial_participants@[j]@,
                forall|j: int|
                    0 <= j < i ==> (#[trigger] actions@[j] matches FileAction::CreateFile { name }
                        && name@ == spec_rtp_filename(
                        timestamp@,
                        call_id@,
                        initial_participants@[j]@,
                    )),
                forall|j: int|
                    0 <= j < i ==> (#[trigger] participants@[j]).0 == initial_participants@[j]@
                        && participants@[j].1.file_path == spec_rtp_filename(
                        timestamp@,
                        call_id@,
                        initial_participants@[j]@,
                    ) && participants@[j].1.join_time == join_time@,
            decreases n - i,
        {
            let peer = initial_participants[i].clone();
            let filename = rtp_filename(timestamp.as_str(), call_id.as_str(), peer.as_str());
            actions.push(FileAction::CreateFile { name: filename.clone() });
            let info = ParticipantInfo {
                peer_id: peer.clone(),
                join_time: join_time.to_owned(),
                file_path: filename,
            };
            let ghost p0 = participants@;
            proof {
                assert(!assoc_has_key(p0, initial_participants@[i as int]@)) by {
                    if assoc_has_key(p0, initial_participants@[i as int]@) {
                        let w = choose|w: int|
                            0 <= w < p0.len() && p0[w].0 == initial_participants@[i as int]@;
                    }
                }
            }
            participants.insert(peer, info);
            i = i + 1;
        }
        actions.push(
            FileAction::WriteMetadata {
                name: metadata_filename(timestamp.as_str(), call_id.as_str()),
            },
        );
        let recording = RoomRecording { call_id, timestamp, participants };
        self.active_recordings.insert(room_id.to_owned(), recording);
        proof {
            lemma_assoc_insert_props(s0, room_id@, self.active_recordings@.last().1);
        }
        actions
    }

    /// Adds a late joiner to an active recording: a capture file for
    /// the newcomer and a refreshed metadata sidecar.  Unknown rooms
    /// and already-listed participants produce no work.
    pub fn add_participant(&mut self, room_id: &str, peer_id: &str, join_time: &str) -> (r: Vec<
        FileAction,
    >)
        requires
            old(self).wf(),
        ensures
            final(self).wf(),
            !assoc_has_key(old(self).recordings_view(), room_id@)
                ==> final(self).recordings_view() == old(self).recordings_view() && r@ == Seq::<
                FileAction,
            >::empty(),
            assoc_has_key(old(self).recordings_view(), room_id@) ==> ({
                let rec0 = assoc_value(old(self).recordings_view(), room_id@);
                &&& (assoc_has_key(rec0.participants, peer_id@)
                    ==> final(self).recordings_view() == old(self).recordings_view() && r@
                    == Seq::<FileAction>::empty())
                &&& (!assoc_has_key(rec0.participants, peer_id@) ==> {
                    &&& final(self).recordings_view() == assoc_insert(
                        old(self).recordings_view(),
                        room_id@,
                        RoomRecordingView {
                            participants: rec0.participants.push(
                                (
                                    peer_id@,
                                    ParticipantInfoView {
                                        peer_id: peer_id@,
                                        join_time: join_time@,
                                        file_path: spec_rtp_filename(
                                            rec0.timestamp,
                                            rec0.call_id,
                                            peer_id@,
                                        ),
                                    },
                                ),
                            ),
                            ..rec0
                        },
                    )
                    &&& r@.len() == 2
                    &&& (r@[0] matches FileAction::CreateFile { name } && name@
                        == spec_rtp_filename(rec0.timestamp, rec0.call_id, peer_id@))
                    &&& (r@[1] matches FileAction::WriteMetadata { name } && name@
                        == spec_metadata_filename(rec0.timestamp, rec0.call_id))
                })
            }),
    {
        let ghost s0 = self.active_recordings@;
        match self.active_recordings.extract(room_id) {
            Some((idx, mut rec)) => {
                if rec.participants.contains_key(peer_id) {
                    self.active_recordings.restore(idx, room_id.to_owned(), rec);
                    proof {
                        lemma_extract_restore_is_insert(
                            s0,
                            room_id@,
                            self.active_recordings@[idx as int].1,
                        );
                        assert(self.active_recordings@ =~= s0);
                    }
                    let empty: Vec<FileAction> = Vec::new();
                    proof {
                        assert(empty@ =~= Seq::<FileAction>::empty());
                    }
                    empty
                } else {
                    let filename = rtp_filename(
                        rec.timestamp.as_str(),
                        rec.call_id.as_str(),
                        peer_id,
                    );
                    let meta = metadata_filename(rec.timestamp.as_str(), rec.call_id.as_str());
                    let info = ParticipantInfo {
                        peer_id: peer_id.to_owned(),
                        join_time: join_time.to_owned(),
                        file_path: filename.clone(),
                    };
                    let ghost p0 = rec.participants@;
                    rec.participants.insert(peer_id.to_owned(), info);
                    proof {
                        assert(rec.participants@ == p0.push(
                            (peer_id@, rec.participants@.last().1),
                        ));
                    }
                    self.active_recordings.restore(idx, room_id.to_owned(), rec);
                    proof {
                        lemma_extract_restore_is_insert(
                            s0,
                            room_id@,
                            self.active_recordings@[idx as int].1,
                        );
                    }
                    let mut r: Vec<FileAction> = Vec::new();
                    r.push(FileAction::CreateFile { name: filename });
                    r.push(FileAction::WriteMetadata { name: meta });
                    r
                }
            },
            None => {
                let empty: Vec<FileAction> = Vec::new();
                proof {
                    assert(empty@ =~= Seq::<FileAction>::empty());
                }
                empty
            },
        }
    }

    /// The capture file an RTP packet from `peer_id` in `room_id`
    /// should be appended to: present exactly when the room is being
    /// recorded and lists the participant.
    pub fn write_rtp_packet(&self, room_id: &str, peer_id: &str) -> (r: Option<String>)
        requires
            self.wf(),
        ensures
            match r {
                Some(path) => assoc_has_key(self.recordings_view(), room_id@) && assoc_has_key(
                    assoc_value(self.recordings_view(), room_id@).participants,
                    peer_id@,
                ) && path@ == assoc_value(
                    assoc_value(self.recordings_view(), room_id@).participants,
                    peer_id@,
                ).file_path,
                None => !assoc_has_key(self.recordings_view(), room_id@) || !assoc_has_key(
                    assoc_value(self.recordings_view(), room_id@).participants,
                    peer_id@,
                ),
            },
    {
        match self.active_recordings.get(room_id) {
            Some(rec) => {
                proof {
                    let i = crate::assoc::assoc_idx(self.active_recordings@, room_id@);
                    crate::assoc::lemma_assoc_idx(self.active_recordings@, room_id@);
                }
                match rec.participants.get(peer_id) {
                    Some(info) => Some(info.file_path.clone()),
                    None => None,
                }
            },
            None => None,
        }
    }
}

} // verus!
