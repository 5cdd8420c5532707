//! The counters that are kept of a peer.
use crate::ids::{IpAddr, TopicHash};
use crate::number::{bump, bumped, clip, clipped, decay, decayed, one, squared, zero, Number};
use crate::params::{ParamsView, PeerScoreParams, TopicScoreParams};
use crate::table::{with_key, KeySet, Table};
use crate::time::{Duration, Moment};
use vstd::prelude::*;

verus! {

/// Whether a peer is in the mesh of a topic.
#[derive(Clone, Copy, PartialEq, Eq, Structural, Debug)]
pub enum MeshStatus {
    Active {
        /// When the peer was last grafted.
        graft_time: Moment,
        /// How long the peer has been in the mesh, as of the last decay.
        mesh_time: Duration,
    },
    InActive,
}

impl MeshStatus {
    /// The status of a peer that is grafted at `now`.
    pub fn new_active(now: Moment) -> (r: MeshStatus)
        ensures
            r == (MeshStatus::Active { graft_time: now, mesh_time: Duration { nanos: 0 } }),
    {
        MeshStatus::Active { graft_time: now, mesh_time: Duration { nanos: 0 } }
    }
}

/// What is counted of a peer in one topic.
pub struct TopicStats<N> {
    pub mesh_status: MeshStatus,
    /// Number of first message deliveries.
    pub first_message_deliveries: N,
    /// Whether the peer has been in the mesh for long enough for a deficit to count.
    pub mesh_message_deliveries_active: bool,
    /// Number of message deliveries from the mesh.
    pub mesh_message_deliveries: N,
    /// Mesh failures.
    pub mesh_failure_penalty: N,
    /// Number of invalid messages.
    pub invalid_message_deliveries: N,
}

impl<N: Copy> Copy for TopicStats<N> {

}

impl<N: Copy> Clone for TopicStats<N> {
    fn clone(&self) -> (r: Self)
        ensures
            r == *self,
    {
        *self
    }
}

/// Whether a message that comes at `now` still counts as delivered, where it was validated at
/// `validated` and counts for `window` from then on. A window without an end never closes.
pub open spec fn in_window(validated: Moment, window: Duration, now: Moment) -> bool {
    validated.has_room(window) ==> now.nanos <= validated.nanos + window.nanos
}

impl<N: Number> TopicStats<N> {
    /// Nothing counted yet.
    pub open spec fn fresh() -> Self {
        TopicStats {
            mesh_status: MeshStatus::InActive,
            first_message_deliveries: zero(),
            mesh_message_deliveries_active: false,
            mesh_message_deliveries: zero(),
            mesh_failure_penalty: zero(),
            invalid_message_deliveries: zero(),
        }
    }

    /// A deficit counts only against a peer that is in the mesh.
    pub open spec fn inv(self) -> bool {
        self.mesh_message_deliveries_active ==> self.mesh_status is Active
    }

    /// Whether there are fewer mesh message deliveries than `threshold`, once that counts.
    pub open spec fn has_deficit(self, threshold: N) -> bool {
        self.mesh_message_deliveries_active && self.mesh_message_deliveries.below_spec(threshold)
    }

    /// The square of what is missing to `threshold`.
    pub open spec fn deficit_squared(self, threshold: N) -> N {
        squared(threshold.minus_spec(self.mesh_message_deliveries))
    }

    /// A deficit has become a mesh failure.
    pub open spec fn failed(self, threshold: N) -> Self {
        TopicStats {
            mesh_failure_penalty: self.mesh_failure_penalty.plus_spec(
                self.deficit_squared(threshold),
            ),
            ..self
        }
    }

    /// The peer is out of the mesh.
    pub open spec fn out_of_mesh(self) -> Self {
        TopicStats {
            mesh_status: MeshStatus::InActive,
            mesh_message_deliveries_active: false,
            ..self
        }
    }

    /// The peer was grafted at `now`.
    pub open spec fn grafted(self, now: Moment) -> Self {
        TopicStats {
            mesh_status: MeshStatus::Active {
                graft_time: now,
                mesh_time: Duration { nanos: 0 },
            },
            mesh_message_deliveries_active: false,
            ..self
        }
    }

    /// The peer was pruned.
    pub open spec fn pruned(self, threshold: N) -> Self {
        if self.has_deficit(threshold) {
            self.failed(threshold).out_of_mesh()
        } else {
            self.out_of_mesh()
        }
    }

    /// The peer has left; `threshold` is that of the topic, if the topic is scored.
    pub open spec fn departed(self, threshold: Option<N>) -> Self {
        let reset = TopicStats { first_message_deliveries: zero(), ..self };
        match threshold {
            Some(t) if self.mesh_status is Active && self.has_deficit(t) => {
                reset.failed(t).out_of_mesh()
            },
            _ => reset.out_of_mesh(),
        }
    }

    /// One more delivery from the mesh, where the peer is in the mesh.
    pub open spec fn mesh_delivered(self, params: TopicScoreParams<N>) -> Self {
        if self.mesh_status is Active {
            TopicStats {
                mesh_message_deliveries: bumped(
                    self.mesh_message_deliveries,
                    params.mesh_message_deliveries_cap,
                ),
                ..self
            }
        } else {
            self
        }
    }

    /// One more message that the peer was the first to deliver.
    pub open spec fn first_delivered(self, params: TopicScoreParams<N>) -> Self {
        TopicStats {
            first_message_deliveries: bumped(
                self.first_message_deliveries,
                params.first_message_deliveries_cap,
            ),
            ..self
        }.mesh_delivered(params)
    }

    /// One more invalid message.
    pub open spec fn invalid_delivered(self) -> Self {
        TopicStats {
            invalid_message_deliveries: self.invalid_message_deliveries.plus_spec(one()),
            ..self
        }
    }

    /// The counters after one decay.
    pub open spec fn counters_decayed(self, params: TopicScoreParams<N>, floor: N) -> Self {
        TopicStats {
            first_message_deliveries: decayed(
                self.first_message_deliveries,
                params.first_message_deliveries_decay,
                floor,
            ),
            mesh_message_deliveries: decayed(
                self.mesh_message_deliveries,
                params.mesh_message_deliveries_decay,
                floor,
            ),
            mesh_failure_penalty: decayed(
                self.mesh_failure_penalty,
                params.mesh_failure_penalty_decay,
                floor,
            ),
            invalid_message_deliveries: decayed(
                self.invalid_message_deliveries,
                params.invalid_message_deliveries_decay,
                floor,
            ),
            ..self
        }
    }

    /// The time in the mesh as of `now`; a deficit counts from the activation time on.
    pub open spec fn mesh_time_updated(self, params: TopicScoreParams<N>, now: Moment) -> Self {
        match self.mesh_status {
            MeshStatus::Active { graft_time, .. } => TopicStats {
                mesh_status: MeshStatus::Active { graft_time, mesh_time: now.since(graft_time) },
                mesh_message_deliveries_active: self.mesh_message_deliveries_active
                    || now.since(graft_time).nanos
                    > params.mesh_message_deliveries_activation.nanos,
                ..self
            },
            MeshStatus::InActive => self,
        }
    }

    /// What a refresh at `now` makes of the counters of a scored topic.
    pub open spec fn refreshed(
        self,
        params: TopicScoreParams<N>,
        floor: N,
        now: Moment,
    ) -> Self {
        self.counters_decayed(params, floor).mesh_time_updated(params, now)
    }

    /// The delivery counters cut down to the caps that came down from `before` to `after`.
    pub open spec fn recapped(
        self,
        before: TopicScoreParams<N>,
        after: TopicScoreParams<N>,
    ) -> Self {
        TopicStats {
            first_message_deliveries: if after.first_message_deliveries_cap.below_spec(
                before.first_message_deliveries_cap,
            ) {
                clipped(self.first_message_deliveries, after.first_message_deliveries_cap)
            } else {
                self.first_message_deliveries
            },
            mesh_message_deliveries: if after.mesh_message_deliveries_cap.below_spec(
                before.mesh_message_deliveries_cap,
            ) {
                clipped(self.mesh_message_deliveries, after.mesh_message_deliveries_cap)
            } else {
                self.mesh_message_deliveries
            },
            ..self
        }
    }

    /// Whether the peer is in the mesh.
    pub fn in_mesh(&self) -> (r: bool)
        ensures
            r == (self.mesh_status is Active),
    {
        matches!(self.mesh_status, MeshStatus::Active { .. })
    }

    /// Adds the square of the deficit to the mesh failures.
    fn fail(&mut self, threshold: N)
        ensures
            *final(self) == old(self).failed(threshold),
    {
        let deficit = threshold.minus(self.mesh_message_deliveries);
        self.mesh_failure_penalty = self.mesh_failure_penalty.plus(deficit.times(deficit));
    }

    /// Puts the peer into the mesh.
    pub(crate) fn graft(&mut self, now: Moment)
        ensures
            *final(self) == old(self).grafted(now),
    {
        self.mesh_status = MeshStatus::new_active(now);
        self.mesh_message_deliveries_active = false;
    }

    /// Takes the peer out of the mesh; a deficit sticks to it as a mesh failure.
    pub(crate) fn prune(&mut self, threshold: N)
        ensures
            *final(self) == old(self).pruned(threshold),
    {
        if self.mesh_message_deliveries_active && self.mesh_message_deliveries.below(threshold) {
            self.fail(threshold);
        }
        self.mesh_message_deliveries_active = false;
        self.mesh_status = MeshStatus::InActive;
    }

    /// Takes the peer out of the mesh because it has left.
    pub(crate) fn depart(&mut self, threshold: Option<N>)
        ensures
            *final(self) == old(self).departed(threshold),
    {
        self.first_message_deliveries = N::of_count(0);
        if let Some(threshold) = threshold {
            if self.in_mesh() && self.mesh_message_deliveries_active
                && self.mesh_message_deliveries.below(threshold) {
                self.fail(threshold);
            }
        }
        self.mesh_status = MeshStatus::InActive;
        self.mesh_message_deliveries_active = false;
    }

    /// Counts one more delivery from the mesh.
    pub(crate) fn count_mesh_delivery(&mut self, params: &TopicScoreParams<N>)
        ensures
            *final(self) == old(self).mesh_delivered(*params),
    {
        if let MeshStatus::Active { .. } = self.mesh_status {
            self.mesh_message_deliveries = bump(
                self.mesh_message_deliveries,
                params.mesh_message_deliveries_cap,
            );
        }
    }

    /// Counts one more message that the peer was the first to deliver.
    pub(crate) fn count_first_delivery(&mut self, params: &TopicScoreParams<N>)
        ensures
            *final(self) == old(self).first_delivered(*params),
    {
        self.first_message_deliveries = bump(
            self.first_message_deliveries,
            params.first_message_deliveries_cap,
        );
        self.count_mesh_delivery(params);
    }

    /// Counts one more invalid message.
    pub(crate) fn count_invalid_delivery(&mut self)
        ensures
            *final(self) == old(self).invalid_delivered(),
    {
        self.invalid_message_deliveries = self.invalid_message_deliveries.plus(N::of_count(1));
    }

    /// Decays the counters and brings the time in the mesh up to date.
    pub(crate) fn refresh(&mut self, params: &TopicScoreParams<N>, floor: N, now: Moment)
        ensures
            *final(self) == old(self).refreshed(*params, floor, now),
    {
        self.first_message_deliveries = decay(
            self.first_message_deliveries,
            params.first_message_deliveries_decay,
            floor,
        );
        self.mesh_message_deliveries = decay(
            self.mesh_message_deliveries,
            params.mesh_message_deliveries_decay,
            floor,
        );
        self.mesh_failure_penalty = decay(
            self.mesh_failure_penalty,
            params.mesh_failure_penalty_decay,
            floor,
        );
        self.invalid_message_deliveries = decay(
            self.invalid_message_deliveries,
            params.invalid_message_deliveries_decay,
            floor,
        );
        if let MeshStatus::Active { graft_time, .. } = self.mesh_status {
            let mesh_time = now.duration_since(graft_time);
            self.mesh_status = MeshStatus::Active { graft_time, mesh_time };
            if mesh_time.nanos > params.mesh_message_deliveries_activation.nanos {
                self.mesh_message_deliveries_active = true;
            }
        }
    }

    /// Cuts the delivery counters down to caps that have come down.
    pub(crate) fn recap(&mut self, before: &TopicScoreParams<N>, after: &TopicScoreParams<N>)
        ensures
            *final(self) == old(self).recapped(*before, *after),
    {
        if after.first_message_deliveries_cap.below(before.first_message_deliveries_cap) {
            self.first_message_deliveries = clip(
                self.first_message_deliveries,
                after.first_message_deliveries_cap,
            );
        }
        if after.mesh_message_deliveries_cap.below(before.mesh_message_deliveries_cap) {
            self.mesh_message_deliveries = clip(
                self.mesh_message_deliveries,
                after.mesh_message_deliveries_cap,
            );
        }
    }
}

impl<N: Number> Default for TopicStats<N> {
    fn default() -> (r: Self)
        ensures
            r == TopicStats::<N>::fresh(),
    {
        TopicStats {
            mesh_status: MeshStatus::InActive,
            first_message_deliveries: N::of_count(0),
            mesh_message_deliveries_active: false,
            mesh_message_deliveries: N::of_count(0),
            mesh_failure_penalty: N::of_count(0),
            invalid_message_deliveries: N::of_count(0),
        }
    }
}

/// Whether a peer is connected.
#[derive(Clone, Copy, PartialEq, Eq, Structural, Debug)]
pub enum ConnectionStatus {
    /// The peer is connected.
    Connected,
    /// The peer is disconnected.
    Disconnected {
        /// When its score expires, and its counters may be thrown away.
        expire: Moment,
    },
}

/// What is counted of a peer.
pub struct PeerStats<N> {
    /// Whether the peer is connected.
    pub status: ConnectionStatus,
    /// The counters per topic.
    pub topics: Table<TopicHash, TopicStats<N>>,
    /// The addresses that the peer is known to use.
    pub known_ips: KeySet<IpAddr>,
    /// Misbehaviour of the peer.
    pub behaviour_penalty: N,
    /// The score that the application assigns.
    pub application_score: N,
    /// Messages that the peer was too slow to take.
    pub slow_peer_penalty: N,
}

/// What [`PeerStats`] say.
#[verifier::ext_equal]
pub struct PeerView<N> {
    pub status: ConnectionStatus,
    pub topics: Map<Seq<char>, TopicStats<N>>,
    /// The topics of `topics`, in the order in which they are summed up.
    pub topic_order: Seq<Seq<char>>,
    /// The known addresses, in the order in which they are summed up.
    pub known_ips: Seq<IpAddr>,
    pub behaviour_penalty: N,
    pub application_score: N,
    pub slow_peer_penalty: N,
}

impl<N> View for PeerStats<N> {
    type V = PeerView<N>;

    open spec fn view(&self) -> PeerView<N> {
        PeerView {
            status: self.status,
            topics: self.topics@,
            topic_order: self.topics.keys(),
            known_ips: self.known_ips.keys(),
            behaviour_penalty: self.behaviour_penalty,
            application_score: self.application_score,
            slow_peer_penalty: self.slow_peer_penalty,
        }
    }
}

impl<N: Number> PeerView<N> {
    /// A connected peer of which nothing has been counted.
    pub open spec fn fresh() -> Self {
        PeerView {
            status: ConnectionStatus::Connected,
            topics: Map::empty(),
            topic_order: Seq::empty(),
            known_ips: Seq::empty(),
            behaviour_penalty: zero(),
            application_score: zero(),
            slow_peer_penalty: zero(),
        }
    }

    /// The counters of `topic`; none counted yet where there are none.
    pub open spec fn topic_stats(self, topic: Seq<char>) -> TopicStats<N> {
        if self.topics.contains_key(topic) {
            self.topics[topic]
        } else {
            TopicStats::fresh()
        }
    }

    /// The counters of `topic` are `stats`.
    pub open spec fn with_topic(self, topic: Seq<char>, stats: TopicStats<N>) -> Self {
        PeerView {
            topics: self.topics.insert(topic, stats),
            topic_order: with_key(self.topic_order, topic),
            ..self
        }
    }

    /// The counters of `topic` are changed by `f`, where the topic is scored or has counters.
    pub open spec fn touched(
        self,
        topic: Seq<char>,
        scored: bool,
        f: spec_fn(TopicStats<N>) -> TopicStats<N>,
    ) -> Self {
        if scored || self.topics.contains_key(topic) {
            self.with_topic(topic, f(self.topic_stats(topic)))
        } else {
            self
        }
    }

    /// Whether the peer is in the mesh of `topic`.
    pub open spec fn in_mesh(self, topic: Seq<char>) -> bool {
        self.topics.contains_key(topic) && self.topics[topic].mesh_status is Active
    }

    /// Whether the score has expired at `now`, so that the counters may be thrown away.
    pub open spec fn expired(self, now: Moment) -> bool {
        match self.status {
            ConnectionStatus::Connected => false,
            ConnectionStatus::Disconnected { expire } => now.nanos > expire.nanos,
        }
    }

    /// What a refresh at `now` makes of the counters of a connected peer.
    pub open spec fn refreshed(self, params: ParamsView<N>, now: Moment) -> Self {
        PeerView {
            topics: self.topics.map_entries(
                |t: Seq<char>, s: TopicStats<N>|
                    if params.topics.contains_key(t) {
                        s.refreshed(params.topics[t], params.decay_to_zero, now)
                    } else {
                        s
                    },
            ),
            behaviour_penalty: decayed(
                self.behaviour_penalty,
                params.behaviour_penalty_decay,
                params.decay_to_zero,
            ),
            slow_peer_penalty: decayed(
                self.slow_peer_penalty,
                params.slow_peer_decay,
                params.decay_to_zero,
            ),
            ..self
        }
    }

    /// The peer has left, and its counters are kept until `expire`.
    pub open spec fn departed(self, params: ParamsView<N>, expire: Moment) -> Self {
        PeerView {
            topics: self.topics.map_entries(
                |t: Seq<char>, s: TopicStats<N>|
                    s.departed(
                        if params.topics.contains_key(t) {
                            Some(params.topics[t].mesh_message_deliveries_threshold)
                        } else {
                            None
                        },
                    ),
            ),
            status: ConnectionStatus::Disconnected { expire },
            ..self
        }
    }
}

impl<N: Number> PeerStats<N> {
    /// The tables are tables.
    pub open spec fn wf(&self) -> bool {
        &&& self.topics.wf()
        &&& self.known_ips.wf()
    }

    /// The counters of a topic, if they exist; otherwise, where `params` score the topic, new
    /// counters are put there; otherwise there are none.
    pub fn stats_or_default_mut(
        &mut self,
        topic_hash: TopicHash,
        params: &PeerScoreParams<N>,
    ) -> (r: Option<&mut TopicStats<N>>)
        requires
            old(self).wf(),
            params.wf(),
        ensures
            final(self).wf(),
            match r {
                Some(stats) => {
                    &&& params@.topics.contains_key(topic_hash@)
                        || old(self)@.topics.contains_key(topic_hash@)
                    &&& *stats == old(self)@.topic_stats(topic_hash@)
                    &&& final(self)@ == old(self)@.with_topic(topic_hash@, *final(stats))
                },
                None => {
                    &&& !params@.topics.contains_key(topic_hash@)
                    &&& !old(self)@.topics.contains_key(topic_hash@)
                    &&& final(self)@ == old(self)@
                },
            },
    {
        proof {
            self.topics.keys_enumerate();
        }
        if params.topics.contains_key(&topic_hash) {
            Some(self.topics.get_or_insert_mut(topic_hash, TopicStats::default()))
        } else {
            self.topics.get_mut(&topic_hash)
        }
    }

    /// Decays the counters of a connected peer.
    pub(crate) fn refresh(&mut self, params: &PeerScoreParams<N>, now: Moment)
        requires
            old(self).wf(),
            params.wf(),
        ensures
            final(self).wf(),
            final(self)@ == old(self)@.refreshed(params@, now),
    {
        let n: usize = self.topics.len();
        let ghost before = self.topics;
        let ghost after = old(self)@.refreshed(params@, now);
        proof {
            before.keys_enumerate();
        }
        let mut i: usize = 0;
        while i < n
            invariant
                i <= n,
                n == before.keys().len(),
                before.wf(),
                params.wf(),
                self.topics.wf(),
                self.topics.keys() == before.keys(),
                self.topics@.dom() == before@.dom(),
                before == old(self).topics,
                after == old(self)@.refreshed(params@, now),
                forall|j: int|
                    #![trigger before.keys()[j]]
                    0 <= j < n ==> before@.contains_key(before.keys()[j])
                        && self.topics@[before.keys()[j]] == if j < i {
                        after.topics[before.keys()[j]]
                    } else {
                        before@[before.keys()[j]]
                    },
                *self == (PeerStats { topics: self.topics, ..*old(self) }),
            decreases n - i,
        {
            let ghost prior = self.topics;
            proof {
                before.keys_enumerate();
            }
            if let Some(topic_params) = params.topics.get(self.topics.key_at(i)) {
                let stats = self.topics.value_at_mut(i);
                stats.refresh(topic_params, params.decay_to_zero, now);
                assert(self.topics@.dom() =~= prior@.dom());
            }
            i = i + 1;
        }
        proof {
            assert forall|t: Seq<char>| #[trigger] before@.contains_key(t) implies self.topics@[t]
                == after.topics[t] by {
                before.keys_enumerate();
                assert(before.keys().contains(t));
                assert(before.keys()[before.keys().index_of(t)] == t);
            }
            assert(self.topics@ =~= after.topics);
        }
        self.behaviour_penalty = decay(
            self.behaviour_penalty,
            params.behaviour_penalty_decay,
            params.decay_to_zero,
        );
        self.slow_peer_penalty = decay(
            self.slow_peer_penalty,
            params.slow_peer_decay,
            params.decay_to_zero,
        );
    }

    /// Marks the peer as disconnected, its counters to be kept until `expire`.
    pub(crate) fn depart(&mut self, params: &PeerScoreParams<N>, expire: Moment)
        requires
            old(self).wf(),
            params.wf(),
        ensures
            final(self).wf(),
            final(self)@ == old(self)@.departed(params@, expire),
    {
        let n: usize = self.topics.len();
        let ghost before = self.topics;
        let ghost after = old(self)@.departed(params@, expire);
        proof {
            before.keys_enumerate();
        }
        let mut i: usize = 0;
        while i < n
            invariant
                i <= n,
                n == before.keys().len(),
                before.wf(),
                params.wf(),
                self.topics.wf(),
                self.topics.keys() == before.keys(),
                self.topics@.dom() == before@.dom(),
                before == old(self).topics,
                after == old(self)@.departed(params@, expire),
                forall|j: int|
                    #![trigger before.keys()[j]]
                    0 <= j < n ==> before@.contains_key(before.keys()[j])
                        && self.topics@[before.keys()[j]] == if j < i {
                        after.topics[before.keys()[j]]
                    } else {
                        before@[before.keys()[j]]
                    },
                *self == (PeerStats { topics: self.topics, ..*old(self) }),
            decreases n - i,
        {
            let ghost prior = self.topics;
            proof {
                before.keys_enumerate();
            }
            let threshold = match params.topics.get(self.topics.key_at(i)) {
                Some(topic_params) => Some(topic_params.mesh_message_deliveries_threshold),
                None => None,
            };
            let stats = self.topics.value_at_mut(i);
            stats.depart(threshold);
            assert(self.topics@.dom() =~= prior@.dom());
            i = i + 1;
        }
        proof {
            assert forall|t: Seq<char>| #[trigger] before@.contains_key(t) implies self.topics@[t]
                == after.topics[t] by {
                before.keys_enumerate();
                assert(before.keys().contains(t));
                assert(before.keys()[before.keys().index_of(t)] == t);
            }
            assert(self.topics@ =~= after.topics);
        }
        self.status = ConnectionStatus::Disconnected { expire };
    }
}

impl<N: Number> Default for PeerStats<N> {
    fn default() -> (r: Self)
        ensures
            r.wf(),
            r@ == PeerView::<N>::fresh(),
    {
        PeerStats {
            status: ConnectionStatus::Connected,
            topics: Table::new(),
            known_ips: Table::new(),
            behaviour_penalty: N::of_count(0),
            application_score: N::of_count(0),
            slow_peer_penalty: N::of_count(0),
        }
    }
}

} // verus!
