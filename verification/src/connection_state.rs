//! Per-peer signaling lifecycle: the legal-transition table, the stored
//! states, and the transition log with its legality invariant.

use vstd::prelude::*;
use crate::assoc::{AssocVec, assoc_has_key, assoc_value, assoc_insert, unique_keys,
    lemma_assoc_insert_props};

verus! {

/// The signaling lifecycle of one peer.
#[derive(Debug, Clone, Copy, PartialEq, Eq, Hash, Structural)]
pub enum ConnectionState {
    New,
    Joining,
    WaitingForOffer,
    OfferReceived,
    AnswerCreated,
    Connected,
    Failed,
    Closed,
}

impl View for ConnectionState {
    type V = ConnectionState;

    open spec fn view(&self) -> ConnectionState {
        *self
    }
}

/// Failed and Closed accept no further transitions.
pub open spec fn spec_is_terminal(s: ConnectionState) -> bool {
    s == ConnectionState::Failed || s == ConnectionState::Closed
}

/// The legal-transition table: the linear setup chain, plus Failed and
/// Closed from any non-terminal state, plus New for an unknown peer.
pub open spec fn spec_valid_transition(from: Option<ConnectionState>, to: ConnectionState) -> bool {
    match (from, to) {
        (None, ConnectionState::New) => true,
        (Some(ConnectionState::New), ConnectionState::Joining) => true,
        (Some(ConnectionState::Joining), ConnectionState::WaitingForOffer) => true,
        (Some(ConnectionState::WaitingForOffer), ConnectionState::OfferReceived) => true,
        (Some(ConnectionState::OfferReceived), ConnectionState::AnswerCreated) => true,
        (Some(ConnectionState::AnswerCreated), ConnectionState::Connected) => true,
        (Some(s), ConnectionState::Failed) => !spec_is_terminal(s),
        (Some(s), ConnectionState::Closed) => !spec_is_terminal(s),
        _ => false,
    }
}

/// Whether the table admits moving from `from` to `to`.
pub fn valid_transition(from: Option<ConnectionState>, to: ConnectionState) -> (r: bool)
    ensures
        r == spec_valid_transition(from, to),
{
    match (from, to) {
        (None, ConnectionState::New) => true,
        (Some(ConnectionState::New), ConnectionState::Joining) => true,
        (Some(ConnectionState::Joining), ConnectionState::WaitingForOffer) => true,
        (Some(ConnectionState::WaitingForOffer), ConnectionState::OfferReceived) => true,
        (Some(ConnectionState::OfferReceived), ConnectionState::AnswerCreated) => true,
        (Some(ConnectionState::AnswerCreated), ConnectionState::Connected) => true,
        (Some(s), ConnectionState::Failed) => !(s == ConnectionState::Failed || s
            == ConnectionState::Closed),
        (Some(s), ConnectionState::Closed) => !(s == ConnectionState::Failed || s
            == ConnectionState::Closed),
        _ => false,
    }
}

/// One accepted transition, as published to monitoring subscribers.
/// The timestamp is seconds since the Unix epoch.
#[derive(Debug, Clone)]
pub struct StateChangeEvent {
    pub timestamp: u64,
    pub peer_id: String,
    pub from_state: Option<ConnectionState>,
    pub to_state: ConnectionState,
}

/// The state a peer is left in by a log: the target of its latest event.
pub open spec fn last_logged(log: Seq<StateChangeEvent>, p: Seq<char>) -> Option<ConnectionState>
    decreases log.len(),
{
    if log.len() == 0 {
        None
    } else if log.last().peer_id@ == p {
        Some(log.last().to_state)
    } else {
        last_logged(log.drop_last(), p)
    }
}

/// Every event extends its peer's logged history by a legal transition.
pub open spec fn log_wf(log: Seq<StateChangeEvent>) -> bool
    decreases log.len(),
{
    if log.len() == 0 {
        true
    } else {
        log_wf(log.drop_last()) && log.last().from_state == last_logged(
            log.drop_last(),
            log.last().peer_id@,
        ) && spec_valid_transition(log.last().from_state, log.last().to_state)
    }
}

/// Stored states plus the log of every accepted transition.
pub struct ConnectionStateManager {
    states: AssocVec<ConnectionState>,
    log: Vec<StateChangeEvent>,
}

impl ConnectionStateManager {
    pub closed spec fn states_view(&self) -> Seq<(Seq<char>, ConnectionState)> {
        self.states@
    }

    pub closed spec fn log_view(&self) -> Seq<StateChangeEvent> {
        self.log@
    }

    /// The state stored for `p`, if any.
    pub open spec fn spec_state(&self, p: Seq<char>) -> Option<ConnectionState> {
        if assoc_has_key(self.states_view(), p) {
            Some(assoc_value(self.states_view(), p))
        } else {
            None
        }
    }

    /// Keys are unique, the log only holds legal transitions, and the
    /// stored states are exactly what the log replays to.
    pub closed spec fn wf(&self) -> bool {
        &&& unique_keys(self.states@)
        &&& log_wf(self.log@)
        &&& forall|p: Seq<char>| #[trigger] last_logged(self.log@, p) == self.spec_state(p)
    }

    pub fn new() -> (r: Self)
        ensures
            r.wf(),
            r.states_view() == Seq::<(Seq<char>, ConnectionState)>::empty(),
            r.log_view() == Seq::<StateChangeEvent>::empty(),
    {
        let r = ConnectionStateManager { states: AssocVec::new(), log: Vec::new() };
        proof {
            assert(r.log@ =~= Seq::<StateChangeEvent>::empty());
            assert(forall|p: Seq<char>| #[trigger] last_logged(r.log@, p) == r.spec_state(p));
        }
        r
    }

    /// Moves `peer_id` to `new_state` when the table allows it; an
    /// accepted move is stored and logged, a rejected one changes
    /// nothing.  Returns whether the move was accepted.
    pub fn transition(&mut self, peer_id: &str, new_state: ConnectionState, timestamp: u64) -> (r:
        bool)
        requires
            old(self).wf(),
        ensures
            final(self).wf(),
            r == spec_valid_transition(old(self).spec_state(peer_id@), new_state),
            r ==> final(self).states_view() == assoc_insert(
                old(self).states_view(),
                peer_id@,
                new_state,
            ),
            r ==> final(self).log_view().len() == old(self).log_view().len() + 1,
            r ==> final(self).log_view().drop_last() == old(self).log_view(),
            r ==> {
                let e = final(self).log_view().last();
                e.timestamp == timestamp && e.peer_id@ == peer_id@ && e.from_state == old(
                    self,
                ).spec_state(peer_id@) && e.to_state == new_state
            },
            !r ==> final(self).states_view() == old(self).states_view(),
            !r ==> final(self).log_view() == old(self).log_view(),
    {
        let ghost s0 = self.states@;
        let ghost l0 = self.log@;
        let current: Option<ConnectionState> = match self.states.get(peer_id) {
            Some(s) => Some(*s),
            None => None,
        };
        if valid_transition(current, new_state) {
            let event = StateChangeEvent {
                timestamp,
                peer_id: peer_id.to_owned(),
                from_state: current,
                to_state: new_state,
            };
            self.log.push(event);
            self.states.insert(peer_id.to_owned(), new_state);
            proof {
                let l1 = self.log@;
                assert(l1.drop_last() =~= l0);
                assert(log_wf(l1));
                lemma_assoc_insert_props(s0, peer_id@, new_state);
                assert forall|p: Seq<char>| #[trigger] last_logged(l1, p) == self.spec_state(
                    p,
                ) by {
                    if p == peer_id@ {
                        assert(last_logged(l1, p) == Some(new_state));
                    } else {
                        assert(last_logged(l1, p) == last_logged(l0, p));
                    }
                }
            }
            true
        } else {
            false
        }
    }

    /// The state stored for `peer_id`, if any.
    pub fn get_state(&self, peer_id: &str) -> (r: Option<ConnectionState>)
        requires
            self.wf(),
        ensures
            r == self.spec_state(peer_id@),
    {
        match self.states.get(peer_id) {
            Some(s) => Some(*s),
            None => None,
        }
    }

    /// Every stored peer with its state, in first-seen order.
    pub fn get_all_states(&self) -> (r: Vec<(String, ConnectionState)>)
        requires
            self.wf(),
        ensures
            r@.len() == self.states_view().len(),
            forall|i: int|
                0 <= i < r@.len() ==> r@[i].0@ == self.states_view()[i].0 && r@[i].1
                    == self.states_view()[i].1,
    {
        let n = self.states.len();
        let mut r: Vec<(String, ConnectionState)> = Vec::new();
        let mut i: usize = 0;
        while i < n
            invariant
                n == self.states_view().len(),
                i <= n,
                r@.len() == i,
                forall|j: int|
                    0 <= j < i ==> r@[j].0@ == self.states_view()[j].0 && r@[j].1
                        == self.states_view()[j].1,
            decreases n - i,
        {
            let k = self.states.key_at(i).clone();
            let v = *self.states.value_at(i);
            r.push((k, v));
            i = i + 1;
        }
        r
    }

    /// How many transitions have been accepted.
    pub fn log_len(&self) -> (n: usize)
        ensures
            n == self.log_view().len(),
    {
        self.log.len()
    }

    /// The `i`-th accepted transition.
    pub fn log_at(&self, i: usize) -> (r: &StateChangeEvent)
        requires
            i < self.log_view().len(),
        ensures
            *r == self.log_view()[i as int],
    {
        &self.log[i]
    }
}

/// Transition legality: a well-formed manager's log never contains a
/// transition outside the legal table.
pub proof fn lemma_log_transitions_legal(log: Seq<StateChangeEvent>)
    requires
        log_wf(log),
    ensures
        forall|i: int|
            0 <= i < log.len() ==> #[trigger] spec_valid_transition(
                log[i].from_state,
                log[i].to_state,
            ),
    decreases log.len(),
{
    if log.len() > 0 {
        lemma_log_transitions_legal(log.drop_last());
        assert forall|i: int| 0 <= i < log.len() implies #[trigger] spec_valid_transition(
            log[i].from_state,
            log[i].to_state,
        ) by {
            if i < log.len() - 1 {
                assert(log.drop_last()[i] == log[i]);
            }
        }
    }
}

/// Chained observation: each event picks up exactly where its peer's
/// previous event left off, so a peer's observed state sequence walks
/// the legal table step by step.
pub proof fn lemma_log_chain(log: Seq<StateChangeEvent>, i: int, j: int)
    requires
        log_wf(log),
        0 <= i < j < log.len(),
        log[i].peer_id@ == log[j].peer_id@,
        forall|k: int| i < k < j ==> (#[trigger] log[k].peer_id@) != log[i].peer_id@,
    ensures
        log[j].from_state == Some(log[i].to_state),
    decreases log.len(),
{
    let p = log[i].peer_id@;
    if j == log.len() - 1 {
        assert(log[j].from_state == last_logged(log.drop_last(), p));
        lemma_last_logged_of_prefix(log.drop_last(), i, p);
    } else {
        assert(log.drop_last()[i] == log[i]);
        assert(log.drop_last()[j] == log[j]);
        lemma_log_chain(log.drop_last(), i, j);
    }
}

/// In a log whose last event for `p` stands at `i`, replaying stops
/// there.
proof fn lemma_last_logged_of_prefix(log: Seq<StateChangeEvent>, i: int, p: Seq<char>)
    requires
        0 <= i < log.len(),
        log[i].peer_id@ == p,
        forall|k: int| i < k < log.len() ==> (#[trigger] log[k].peer_id@) != p,
    ensures
        last_logged(log, p) == Some(log[i].to_state),
    decreases log.len(),
{
    if i == log.len() - 1 {
    } else {
        assert(log.last().peer_id@ != p);
        assert(log.drop_last()[i] == log[i]);
        lemma_last_logged_of_prefix(log.drop_last(), i, p);
    }
}

} // verus!
