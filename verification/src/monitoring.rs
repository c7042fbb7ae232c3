//! Connection monitoring: per-peer counters, aggregate metrics, and
//! alerting.  All rates are integer percentages; timestamps are seconds
//! since the Unix epoch.

use vstd::prelude::*;
use vstd::string::*;
use crate::assoc::{AssocVec, assoc_has_key, assoc_value, assoc_insert, assoc_remove, unique_keys};
use crate::connection_state::{ConnectionState, ConnectionStateManager};
use crate::strutil::{decimal_string, spec_decimal};
use crate::types::views_of;

verus! {

/// The observable counters of one connection.
#[verifier::ext_equal]
pub ghost struct ConnectionStatsView {
    pub peer_id: Seq<char>,
    pub connection_state: Seq<char>,
    pub ice_connection_state: Seq<char>,
    pub connected_at: Option<u64>,
    pub last_activity: u64,
    pub ice_candidates_received: u32,
    pub ice_candidates_sent: u32,
    pub data_channels_open: u32,
    pub error_count: u32,
}

/// Per-peer connection counters.
#[derive(Debug, Clone)]
pub struct ConnectionStats {
    pub peer_id: String,
    pub connection_state: String,
    pub ice_connection_state: String,
    pub connected_at: Option<u64>,
    pub last_activity: u64,
    pub ice_candidates_received: u32,
    pub ice_candidates_sent: u32,
    pub data_channels_open: u32,
    pub error_count: u32,
}

impl View for ConnectionStats {
    type V = ConnectionStatsView;

    open spec fn view(&self) -> ConnectionStatsView {
        ConnectionStatsView {
            peer_id: self.peer_id@,
            connection_state: self.connection_state@,
            ice_connection_state: self.ice_connection_state@,
            connected_at: self.connected_at,
            last_activity: self.last_activity,
            ice_candidates_received: self.ice_candidates_received,
            ice_candidates_sent: self.ice_candidates_sent,
            data_channels_open: self.data_channels_open,
            error_count: self.error_count,
        }
    }
}

/// A fresh entry: both states read `new`, all counters zero.
pub open spec fn spec_new_stats(peer_id: Seq<char>, now: u64) -> ConnectionStatsView {
    ConnectionStatsView {
        peer_id: peer_id,
        connection_state: "new"@,
        ice_connection_state: "new"@,
        connected_at: None,
        last_activity: now,
        ice_candidates_received: 0,
        ice_candidates_sent: 0,
        data_channels_open: 0,
        error_count: 0,
    }
}

impl ConnectionStats {
    pub fn new(peer_id: String, now: u64) -> (r: Self)
        ensures
            r@ == spec_new_stats(peer_id@, now),
    {
        let r = ConnectionStats {
            peer_id,
            connection_state: String::from_str("new"),
            ice_connection_state: String::from_str("new"),
            connected_at: None,
            last_activity: now,
            ice_candidates_received: 0,
            ice_candidates_sent: 0,
            data_channels_open: 0,
            error_count: 0,
        };
        proof {
            assert(r@ =~= spec_new_stats(r.peer_id@, now));
        }
        r
    }

    /// Stores the reported state; the first move to `connected` pins
    /// the connection time.
    pub fn update_state(&mut self, state: &str, now: u64)
        ensures
            final(self)@ == (ConnectionStatsView {
                connection_state: state@,
                last_activity: now,
                connected_at: if state@ == "connected"@ && old(self)@.connected_at is None {
                    Some(now)
                } else {
                    old(self)@.connected_at
                },
                ..old(self)@
            }),
    {
        let ghost v0 = self@;
        self.connection_state = state.to_owned();
        self.last_activity = now;
        if crate::strutil::str_eq(state, "connected") && self.connected_at.is_none() {
            self.connected_at = Some(now);
        }
        proof {
            assert(self@ =~= (ConnectionStatsView {
                connection_state: self@.connection_state,
                last_activity: now,
                connected_at: self@.connected_at,
                ..v0
            }));
        }
    }

    /// Counts one candidate, received or sent.
    pub fn record_ice_candidate(&mut self, received: bool, now: u64)
        requires
            received ==> old(self).ice_candidates_received < u32::MAX,
            !received ==> old(self).ice_candidates_sent < u32::MAX,
        ensures
            final(self)@ == (ConnectionStatsView {
                ice_candidates_received: if received {
                    (old(self)@.ice_candidates_received + 1) as u32
                } else {
                    old(self)@.ice_candidates_received
                },
                ice_candidates_sent: if received {
                    old(self)@.ice_candidates_sent
                } else {
                    (old(self)@.ice_candidates_sent + 1) as u32
                },
                last_activity: now,
                ..old(self)@
            }),
    {
        let ghost v0 = self@;
        if received {
            self.ice_candidates_received = self.ice_candidates_received + 1;
        } else {
            self.ice_candidates_sent = self.ice_candidates_sent + 1;
        }
        self.last_activity = now;
        proof {
            assert(self@ =~= (ConnectionStatsView {
                ice_candidates_received: self@.ice_candidates_received,
                ice_candidates_sent: self@.ice_candidates_sent,
                last_activity: now,
                ..v0
            }));
        }
    }

    /// Counts one error.
    pub fn record_error(&mut self, now: u64)
        requires
            old(self).error_count < u32::MAX,
        ensures
            final(self)@ == (ConnectionStatsView {
                error_count: (old(self)@.error_count + 1) as u32,
                last_activity: now,
                ..old(self)@
            }),
    {
        let ghost v0 = self@;
        self.error_count = self.error_count + 1;
        self.last_activity = now;
        proof {
            assert(self@ =~= (ConnectionStatsView {
                error_count: self@.error_count,
                last_activity: now,
                ..v0
            }));
        }
    }

    /// Stores the number of open data channels.
    pub fn update_data_channels(&mut self, count: u32, now: u64)
        ensures
            final(self)@ == (ConnectionStatsView {
                data_channels_open: count,
                last_activity: now,
                ..old(self)@
            }),
    {
        let ghost v0 = self@;
        self.data_channels_open = count;
        self.last_activity = now;
        proof {
            assert(self@ =~= (ConnectionStatsView {
                data_channels_open: count,
                last_activity: now,
                ..v0
            }));
        }
    }
}

/// The peers idle for more than sixty seconds before `now`, in
/// registry order.
pub open spec fn spec_idle_ids(s: Seq<(Seq<char>, ConnectionStatsView)>, now: u64) -> Seq<
    Seq<char>,
>
    decreases s.len(),
{
    if s.len() == 0 {
        Seq::empty()
    } else {
        let rest = spec_idle_ids(s.drop_last(), now);
        if s.last().1.last_activity < now && now - s.last().1.last_activity > 60 {
            rest.push(s.last().0)
        } else {
            rest
        }
    }
}

/// How many entries report connection state `st`.
pub open spec fn spec_count_state(
    s: Seq<(Seq<char>, ConnectionStatsView)>,
    st: Seq<char>,
) -> nat
    decreases s.len(),
{
    if s.len() == 0 {
        0
    } else {
        spec_count_state(s.drop_last(), st) + if s.last().1.connection_state == st {
            1nat
        } else {
            0nat
        }
    }
}

/// Aggregate connection metrics; the success rate is a whole-number
/// percentage.
#[derive(Debug, Clone)]
pub struct ConnectionMetrics {
    pub total_connections: usize,
    pub active_connections: usize,
    pub failed_connections: usize,
    pub success_rate_percent: u64,
}

/// How serious an alert is.
#[derive(Debug, Clone, Copy, PartialEq, Eq, Structural)]
pub enum AlertSeverity {
    Info,
    Warning,
    Error,
}

/// One monitoring alert.
#[derive(Debug, Clone)]
pub struct Alert {
    pub severity: AlertSeverity,
    pub message: String,
    pub timestamp: u64,
}

/// The registry of per-peer counters.
pub struct ConnectionMonitor {
    pub connections: AssocVec<ConnectionStats>,
}

impl ConnectionMonitor {
    pub open spec fn connections_view(&self) -> Seq<(Seq<char>, ConnectionStatsView)> {
        self.connections@
    }

    pub open spec fn wf(&self) -> bool {
        unique_keys(self.connections@)
    }

    pub fn new() -> (r: Self)
        ensures
            r.wf(),
            r.connections_view() == Seq::<(Seq<char>, ConnectionStatsView)>::empty(),
    {
        ConnectionMonitor { connections: AssocVec::new() }
    }

    /// Starts tracking `peer_id` afresh.
    pub fn register_connection(&mut self, peer_id: &str, now: u64)
        requires
            old(self).wf(),
        ensures
            final(self).wf(),
            final(self).connections_view() == assoc_insert(
                old(self).connections_view(),
                peer_id@,
                spec_new_stats(peer_id@, now),
            ),
    {
        let stats = ConnectionStats::new(peer_id.to_owned(), now);
        self.connections.insert(peer_id.to_owned(), stats);
    }

    /// Stores the reported state for `peer_id`, starting tracking on
    /// first sight.
    pub fn update_connection_state(&mut self, peer_id: &str, state: &str, now: u64)
        requires
            old(self).wf(),
        ensures
            final(self).wf(),
            ({
                let base = if assoc_has_key(old(self).connections_view(), peer_id@) {
                    assoc_value(old(self).connections_view(), peer_id@)
                } else {
                    spec_new_stats(peer_id@, now)
                };
                final(self).connections_view() == assoc_insert(
                    old(self).connections_view(),
                    peer_id@,
                    ConnectionStatsView {
                        connection_state: state@,
                        last_activity: now,
                        connected_at: if state@ == "connected"@ && base.connected_at is None {
                            Some(now)
                        } else {
                            base.connected_at
                        },
                        ..base
                    },
                )
            }),
    {
        let ghost s0 = self.connections@;
        match self.connections.extract(peer_id) {
            Some((i, mut stats)) => {
                stats.update_state(state, now);
                self.connections.restore(i, peer_id.to_owned(), stats);
                proof {
                    crate::assoc::lemma_extract_restore_is_insert(
                        s0,
                        peer_id@,
                        self.connections@[i as int].1,
                    );
                }
            },
            None => {
                let mut stats = ConnectionStats::new(peer_id.to_owned(), now);
                stats.update_state(state, now);
                self.connections.insert(peer_id.to_owned(), stats);
            },
        }
    }

    /// Drops the entry for `peer_id`.
    pub fn handle_disconnect(&mut self, peer_id: &str, room_id: &str)
        requires
            old(self).wf(),
        ensures
            final(self).wf(),
            final(self).connections_view() == assoc_remove(
                old(self).connections_view(),
                peer_id@,
            ),
    {
        let _ = room_id;
        self.connections.remove(peer_id);
    }

    /// Counts one candidate for a tracked peer; unknown peers are
    /// ignored, and a counter already at its ceiling stays put.
    pub fn record_ice_candidate(&mut self, peer_id: &str, received: bool, now: u64)
        requires
            old(self).wf(),
        ensures
            final(self).wf(),
            !assoc_has_key(old(self).connections_view(), peer_id@)
                ==> final(self).connections_view() == old(self).connections_view(),
            assoc_has_key(old(self).connections_view(), peer_id@) ==> ({
                let base = assoc_value(old(self).connections_view(), peer_id@);
                let ceiling = if received {
                    base.ice_candidates_received == u32::MAX
                } else {
                    base.ice_candidates_sent == u32::MAX
                };
                final(self).connections_view() == assoc_insert(
                    old(self).connections_view(),
                    peer_id@,
                    if ceiling {
                        base
                    } else {
                        ConnectionStatsView {
                            ice_candidates_received: if received {
                                (base.ice_candidates_received + 1) as u32
                            } else {
                                base.ice_candidates_received
                            },
                            ice_candidates_sent: if received {
                                base.ice_candidates_sent
                            } else {
                                (base.ice_candidates_sent + 1) as u32
                            },
                            last_activity: now,
                            ..base
                        }
                    },
                )
            }),
    {
        let ghost s0 = self.connections@;
        match self.connections.extract(peer_id) {
            Some((i, mut stats)) => {
                let can_count = if received {
                    stats.ice_candidates_received < u32::MAX
                } else {
                    stats.ice_candidates_sent < u32::MAX
                };
                if can_count {
                    stats.record_ice_candidate(received, now);
                }
                self.connections.restore(i, peer_id.to_owned(), stats);
                proof {
                    crate::assoc::lemma_extract_restore_is_insert(
                        s0,
                        peer_id@,
                        self.connections@[i as int].1,
                    );
                }
            },
            None => {},
        }
    }

    /// A snapshot of every entry, in registration order.
    pub fn get_connection_stats(&self) -> (r: Vec<ConnectionStats>)
        ensures
            r@.len() == self.connections_view().len(),
            forall|i: int|
                0 <= i < r@.len() ==> (#[trigger] r@[i])@ == self.connections_view()[i].1,
    {
        let n = self.connections.len();
        let mut r: Vec<ConnectionStats> = Vec::new();
        let mut i: usize = 0;
        while i < n
            invariant
                n == self.connections_view().len(),
                i <= n,
                r@.len() == i,
                forall|j: int|
                    0 <= j < i ==> (#[trigger] r@[j])@ == self.connections_view()[j].1,
            decreases n - i,
        {
            let s = self.connections.value_at(i);
            let copy = ConnectionStats {
                peer_id: s.peer_id.clone(),
                connection_state: s.connection_state.clone(),
                ice_connection_state: s.ice_connection_state.clone(),
                connected_at: s.connected_at,
                last_activity: s.last_activity,
                ice_candidates_received: s.ice_candidates_received,
                ice_candidates_sent: s.ice_candidates_sent,
                data_channels_open: s.data_channels_open,
                error_count: s.error_count,
            };
            proof {
                assert(copy@ =~= self.connections_view()[i as int].1);
            }
            r.push(copy);
            i = i + 1;
        }
        r
    }

    /// Drops every entry idle for more than sixty seconds, and reports
    /// which peers were dropped, in registry order.
    pub fn check_connections(&mut self, now: u64) -> (dropped: Vec<String>)
        requires
            old(self).wf(),
        ensures
            final(self).wf(),
            views_of(dropped@) == spec_idle_ids(old(self).connections_view(), now),
            final(self).connections_view() == crate::assoc::assoc_remove_all(
                old(self).connections_view(),
                spec_idle_ids(old(self).connections_view(), now),
            ),
    {
        let n = self.connections.len();
        let mut stale: Vec<String> = Vec::new();
        let mut i: usize = 0;
        proof {
            assert(self.connections_view().take(0) =~= Seq::<
                (Seq<char>, ConnectionStatsView),
            >::empty());
            assert(views_of(stale@) =~= spec_idle_ids(self.connections_view().take(0), now));
        }
        while i < n
            invariant
                n == self.connections_view().len(),
                i <= n,
                views_of(stale@) =~= spec_idle_ids(self.connections_view().take(i as int), now),
            decreases n - i,
        {
            let ghost taken = self.connections_view().take(i as int + 1);
            proof {
                assert(taken.drop_last() =~= self.connections_view().take(i as int));
                assert(taken.last() == self.connections_view()[i as int]);
            }
            let entry = self.connections.value_at(i);
            let idle = entry.last_activity < now && now - entry.last_activity > 60;
            if idle {
                stale.push(self.connections.key_at(i).clone());
            }
            proof {
                assert(views_of(stale@) =~= spec_idle_ids(taken, now));
            }
            i = i + 1;
        }
        proof {
            assert(self.connections_view().take(n as int) =~= self.connections_view());
        }
        let ghost ids = spec_idle_ids(self.connections_view(), now);
        let ghost s0 = self.connections@;
        let m = stale.len();
        let mut j: usize = 0;
        proof {
            assert(ids.take(0) =~= Seq::<Seq<char>>::empty());
        }
        while j < m
            invariant
                m == stale@.len(),
                j <= m,
                views_of(stale@) == ids,
                ids.len() == m,
                unique_keys(self.connections@),
                self.connections@ =~= crate::assoc::assoc_remove_all(s0, ids.take(j as int)),
            decreases m - j,
        {
            let ghost taken = ids.take(j as int + 1);
            proof {
                assert(taken.drop_last() =~= ids.take(j as int));
                assert(taken.last() == ids[j as int]);
                assert(stale@[j as int]@ == ids[j as int]);
            }
            self.connections.remove(stale[j].as_str());
            j = j + 1;
        }
        proof {
            assert(ids.take(m as int) =~= ids);
        }
        stale
    }

    /// Totals, the active and failed counts, and the whole-percent
    /// success rate.
    pub fn get_metrics(&self) -> (m: ConnectionMetrics)
        ensures
            m.total_connections == self.connections_view().len(),
            m.active_connections == spec_count_state(self.connections_view(), "connected"@),
            m.failed_connections == spec_count_state(self.connections_view(), "failed"@),
            self.connections_view().len() == 0 ==> m.success_rate_percent == 0,
            self.connections_view().len() > 0 ==> m.success_rate_percent == spec_count_state(
                self.connections_view(),
                "connected"@,
            ) * 100 / self.connections_view().len(),
    {
        let total = self.connections.len();
        let active = self.count_state("connected");
        let failed = self.count_state("failed");
        let success_rate_percent: u64 = if total > 0 {
            proof {
                lemma_count_state_le_len(self.connections_view(), "connected"@);
                let a = active as int;
                let t = total as int;
                assert((a * 100) / t <= 100) by (nonlinear_arith)
                    requires
                        t > 0,
                        0 <= a <= t,
                ;
            }
            (((active as u128) * 100) / (total as u128)) as u64
        } else {
            0
        };
        ConnectionMetrics {
            total_connections: total,
            active_connections: active,
            failed_connections: failed,
            success_rate_percent,
        }
    }

    /// How many tracked peers report connection state `st`.
    fn count_state(&self, st: &str) -> (n: usize)
        ensures
            n == spec_count_state(self.connections_view(), st@),
    {
        let len = self.connections.len();
        let mut n: usize = 0;
        let mut i: usize = 0;
        proof {
            assert(self.connections_view().take(0) =~= Seq::<
                (Seq<char>, ConnectionStatsView),
            >::empty());
        }
        while i < len
            invariant
                len == self.connections_view().len(),
                i <= len,
                n == spec_count_state(self.connections_view().take(i as int), st@),
                n <= i,
            decreases len - i,
        {
            let ghost taken = self.connections_view().take(i as int + 1);
            proof {
                assert(taken.drop_last() =~= self.connections_view().take(i as int));
                assert(taken.last() == self.connections_view()[i as int]);
            }
            if crate::strutil::str_eq(self.connections.value_at(i).connection_state.as_str(), st) {
                n = n + 1;
            }
            i = i + 1;
        }
        proof {
            assert(self.connections_view().take(len as int) =~= self.connections_view());
        }
        n
    }

    /// Raises a high-failure-rate alert exactly when connections exist
    /// and strictly more than a fifth of them have failed.
    pub fn check_for_alerts(&self, now: u64) -> (alerts: Vec<Alert>)
        ensures
            ({
                let total = self.connections_view().len();
                let failed = spec_count_state(self.connections_view(), "failed"@);
                &&& (total > 0 && failed * 5 > total ==> alerts@.len() == 1
                    && alerts@[0].severity == AlertSeverity::Error && alerts@[0].timestamp == now
                    && alerts@[0].message@ == "High connection failure rate: "@ + spec_decimal(
                    failed * 100 / total,
                ) + "%"@)
                &&& (!(total > 0 && failed * 5 > total) ==> alerts@.len() == 0)
            }),
    {
        let total = self.connections.len();
        let failed = self.count_state("failed");
        let mut alerts: Vec<Alert> = Vec::new();
        proof {
            lemma_count_state_le_len(self.connections_view(), "failed"@);
        }
        if total > 0 && failed > total / 5 {
            proof {
                let t = self.connections_view().len() as int;
                let f = spec_count_state(self.connections_view(), "failed"@) as int;
                assert(f > t / 5 <==> f * 5 > t) by (nonlinear_arith)
                    requires
                        t > 0,
                        0 <= f <= t,
                ;
            }
            proof {
                let f = failed as int;
                let t = total as int;
                assert((f * 100) / t <= 100) by (nonlinear_arith)
                    requires
                        t > 0,
                        0 <= f <= t,
                ;
            }
            let rate: u64 = (((failed as u128) * 100) / (total as u128)) as u64;
            let mut message = String::from_str("High connection failure rate: ");
            message.append(decimal_string(rate).as_str());
            message.append("%");
            alerts.push(Alert { severity: AlertSeverity::Error, message, timestamp: now });
        } else {
            proof {
                let t = self.connections_view().len() as int;
                let f = spec_count_state(self.connections_view(), "failed"@) as int;
                if t > 0 {
                    assert(f > t / 5 <==> f * 5 > t) by (nonlinear_arith)
                        requires
                            t > 0,
                            0 <= f <= t,
                    ;
                }
            }
        }
        alerts
    }
}

/// How many stored peers are in lifecycle state `st`.
pub open spec fn spec_count_lifecycle(
    s: Seq<(Seq<char>, ConnectionState)>,
    st: ConnectionState,
) -> nat
    decreases s.len(),
{
    if s.len() == 0 {
        0
    } else {
        spec_count_lifecycle(s.drop_last(), st) + if s.last().1 == st {
            1nat
        } else {
            0nat
        }
    }
}

impl ConnectionMetrics {
    /// Aggregates the lifecycle state machine: total peers, how many
    /// are connected or failed, and the whole-percent success rate.
    pub fn collect(state_manager: &ConnectionStateManager) -> (m: ConnectionMetrics)
        requires
            state_manager.wf(),
        ensures
            m.total_connections == state_manager.states_view().len(),
            m.active_connections == spec_count_lifecycle(
                state_manager.states_view(),
                ConnectionState::Connected,
            ),
            m.failed_connections == spec_count_lifecycle(
                state_manager.states_view(),
                ConnectionState::Failed,
            ),
            state_manager.states_view().len() == 0 ==> m.success_rate_percent == 0,
            state_manager.states_view().len() > 0 ==> m.success_rate_percent
                == spec_count_lifecycle(state_manager.states_view(), ConnectionState::Connected)
                * 100 / state_manager.states_view().len(),
    {
        let all = state_manager.get_all_states();
        let total = all.len();
        let active = count_lifecycle(state_manager, &all, ConnectionState::Connected);
        let failed = count_lifecycle(state_manager, &all, ConnectionState::Failed);
        let success_rate_percent: u64 = if total > 0 {
            proof {
                lemma_count_lifecycle_le_len(
                    state_manager.states_view(),
                    ConnectionState::Connected,
                );
                let a = active as int;
                let t = total as int;
                assert((a * 100) / t <= 100) by (nonlinear_arith)
                    requires
                        t > 0,
                        0 <= a <= t,
                ;
            }
            (((active as u128) * 100) / (total as u128)) as u64
        } else {
            0
        };
        ConnectionMetrics {
            total_connections: total,
            active_connections: active,
            failed_connections: failed,
            success_rate_percent,
        }
    }
}

/// Counts the peers of `mgr` whose state is `st`, walking the snapshot
/// `all` that `get_all_states` produced.
fn count_lifecycle(
    mgr: &ConnectionStateManager,
    all: &Vec<(String, ConnectionState)>,
    st: ConnectionState,
) -> (n: usize)
    requires
        all@.len() == mgr.states_view().len(),
        forall|i: int| 0 <= i < all@.len() ==> all@[i].1 == mgr.states_view()[i].1,
    ensures
        n == spec_count_lifecycle(mgr.states_view(), st),
{
    let len = all.len();
    let mut n: usize = 0;
    let mut i: usize = 0;
    proof {
        assert(mgr.states_view().take(0) =~= Seq::<(Seq<char>, ConnectionState)>::empty());
    }
    while i < len
        invariant
            len == all@.len(),
            all@.len() == mgr.states_view().len(),
            forall|j: int| 0 <= j < all@.len() ==> all@[j].1 == mgr.states_view()[j].1,
            i <= len,
            n == spec_count_lifecycle(mgr.states_view().take(i as int), st),
            n <= i,
        decreases len - i,
    {
        let ghost taken = mgr.states_view().take(i as int + 1);
        proof {
            assert(taken.drop_last() =~= mgr.states_view().take(i as int));
            assert(taken.last() == mgr.states_view()[i as int]);
        }
        if all[i].1 == st {
            n = n + 1;
        }
        i = i + 1;
    }
    proof {
        assert(mgr.states_view().take(len as int) =~= mgr.states_view());
    }
    n
}

/// No lifecycle state is held by more peers than exist.
proof fn lemma_count_lifecycle_le_len(s: Seq<(Seq<char>, ConnectionState)>, st: ConnectionState)
    ensures
        spec_count_lifecycle(s, st) <= s.len(),
    decreases s.len(),
{
    if s.len() > 0 {
        lemma_count_lifecycle_le_len(s.drop_last(), st);
    }
}

/// No state is reported by more entries than exist.
proof fn lemma_count_state_le_len(s: Seq<(Seq<char>, ConnectionStatsView)>, st: Seq<char>)
    ensures
        spec_count_state(s, st) <= s.len(),
    decreases s.len(),
{
    if s.len() > 0 {
        lemma_count_state_le_len(s.drop_last(), st);
    }
}

} // verus!
