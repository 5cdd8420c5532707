//! The scores of the peers of a gossip mesh.
use crate::delivery::{live, Cached, DeliveryRecord, DeliveryStatus, RecordView, TimeCache};
use crate::ids::{IpAddr, Key, MessageId, TopicHash};
use crate::model::{
    deficit_counts, record_lifetime, topic_score, ScoreView, TIME_CACHE_DURATION,
};
use crate::number::{limit, zero, Number};
use crate::params::{PeerScoreParams, PeerScoreThresholds, TopicScoreParams};
use crate::reason::{Penalty, RejectReason};
use crate::stats::{ConnectionStatus, MeshStatus, PeerStats, PeerView, TopicStats};
use crate::table::{KeySet, Table};
use crate::time::{Clock, Duration, Moment, CLOCK_LIMIT};
use crate::upkeep::{
    counters_change_keeps, ip_added_keeps, ip_removed_keeps, one_more_touched, peer_added_keeps,
    peer_removed_keeps, record_is_sound, refreshed_keeps, topic_params_set_keeps, touched_keeps,
    with_record_keeps,
};
use libp2p_identity::PeerId;
use vstd::prelude::*;

verus! {

/// The score of a peer, and the penalties that went into it.
pub struct PeerScoreReport<N> {
    pub score: N,
    pub penalties: Vec<Penalty>,
}

impl<N: Number> Default for PeerScoreReport<N> {
    fn default() -> (r: Self)
        ensures
            r.score == zero::<N>(),
            r.penalties@ == Seq::<Penalty>::empty(),
    {
        PeerScoreReport { score: N::of_count(0), penalties: Vec::new() }
    }
}

/// The scores of peers, kept by the events that are reported to it.
///
/// The view is the state of the scores; each method's contract says which event it is. A method
/// that depends on the time reads the clock; beside it stands a method of the same name with
/// `_at` behind it, which is told the time.
pub struct PeerScore<N> {
    params: PeerScoreParams<N>,
    thresholds: PeerScoreThresholds<N>,
    peer_stats: Table<PeerId, PeerStats<N>>,
    peer_ips: Table<IpAddr, KeySet<PeerId>>,
    deliveries: TimeCache<MessageId, DeliveryRecord>,
    reports_delivery_times: bool,
    clock: Clock,
}

/// What the counters of each peer say.
pub open spec fn peers_view<N>(peers: Map<PeerId, PeerStats<N>>) -> Map<PeerId, PeerView<N>> {
    peers.map_values(|s: PeerStats<N>| s@)
}

/// Which peers are behind each address.
pub open spec fn ips_view(ips: Map<IpAddr, KeySet<PeerId>>) -> Map<IpAddr, Set<PeerId>> {
    ips.map_values(|s: KeySet<PeerId>| s@.dom())
}

/// What an entry of the cache of records says.
pub open spec fn cached_view(cached: Cached<DeliveryRecord>) -> Cached<RecordView> {
    Cached { value: cached.value@, expires: cached.expires }
}

/// What the records say.
pub open spec fn deliveries_view(records: Map<Seq<u8>, Cached<DeliveryRecord>>) -> Map<
    Seq<u8>,
    Cached<RecordView>,
> {
    records.map_values(|c: Cached<DeliveryRecord>| cached_view(c))
}

impl<N: Number> View for PeerScore<N> {
    type V = ScoreView<N>;

    closed spec fn view(&self) -> ScoreView<N> {
        ScoreView {
            params: self.params@,
            thresholds: self.thresholds,
            peers: peers_view(self.peer_stats@),
            ips: ips_view(self.peer_ips@),
            deliveries: deliveries_view(self.deliveries@),
            reports_delivery_times: self.reports_delivery_times,
        }
    }
}

/// The score of a peer in one topic, and whether a deficit went into it.
fn rate_topic<N: Number>(params: &TopicScoreParams<N>, stats: &TopicStats<N>) -> (r: (N, bool))
    ensures
        r.0 == topic_score(*params, *stats),
        r.1 == deficit_counts(*params, *stats),
{
    let mut score = N::of_count(0);
    let mut deficit_counted = false;

    // P1: time in mesh
    if let MeshStatus::Active { mesh_time, .. } = stats.mesh_status {
        let p1 = limit(
            N::seconds(mesh_time).over(N::seconds(params.time_in_mesh_quantum)),
            params.time_in_mesh_cap,
        );
        score = score.plus(p1.times(params.time_in_mesh_weight));
    }

    // P2: first message deliveries
    let p2 = limit(stats.first_message_deliveries, params.first_message_deliveries_cap);
    score = score.plus(p2.times(params.first_message_deliveries_weight));

    // P3: mesh message deliveries
    if stats.mesh_message_deliveries_active && stats.mesh_message_deliveries.below(
        params.mesh_message_deliveries_threshold,
    ) && !params.mesh_message_deliveries_weight.same(N::of_count(0)) {
        let deficit = params.mesh_message_deliveries_threshold.minus(
            stats.mesh_message_deliveries,
        );
        let p3 = deficit.times(deficit);
        score = score.plus(p3.times(params.mesh_message_deliveries_weight));
        deficit_counted = true;
    }

    // P3b: mesh failures; the weight is meant to be negative
    score = score.plus(stats.mesh_failure_penalty.times(params.mesh_failure_penalty_weight));

    // P4: invalid messages; the weight is meant to be negative
    let p4 = stats.invalid_message_deliveries.times(stats.invalid_message_deliveries);
    score = score.plus(p4.times(params.invalid_message_deliveries_weight));

    (score, deficit_counted)
}

impl<N: Number> PeerScore<N> {
    /// The tables are tables, and a record is kept for as long as it should be.
    spec fn tables_wf(&self) -> bool {
        &&& self.params.wf()
        &&& self.peer_stats.wf()
        &&& self.peer_ips.wf()
        &&& self.deliveries.wf()
        &&& self.deliveries.lifetime() == record_lifetime()
        &&& forall|id: PeerId| #[trigger]
            self.peer_stats@.contains_key(id) ==> self.peer_stats@[id].wf()
        &&& forall|ip: IpAddr| #[trigger]
            self.peer_ips@.contains_key(ip) ==> self.peer_ips@[ip].wf()
        &&& forall|m: Seq<u8>| #[trigger]
            self.deliveries@.contains_key(m) ==> self.deliveries@[m].value.wf()
    }

    /// The state keeps to what every state keeps to.
    pub closed spec fn wf(&self) -> bool {
        &&& self.tables_wf()
        &&& self@.inv()
    }

    /// The clock that is read, by which every point in time of the state is counted.
    pub closed spec fn clock(&self) -> Clock {
        self.clock
    }

    /// What a state that is well-formed keeps to.
    pub proof fn state_inv(&self)
        requires
            self.wf(),
        ensures
            self@.inv(),
    {
    }

    /// Scores of no peers, by `params`.
    pub fn new(params: PeerScoreParams<N>, thresholds: PeerScoreThresholds<N>) -> (r: Self)
        requires
            params.wf(),
        ensures
            r.wf(),
            r@ == ScoreView::fresh(params@, thresholds, false),
    {
        Self::new_with_message_delivery_time_callback(params, thresholds, false)
    }

    /// Scores of no peers, by `params`. Where `callback` is set, somebody wants to hear of
    /// delivery times: the methods that learn of one then return it.
    pub fn new_with_message_delivery_time_callback(
        params: PeerScoreParams<N>,
        thresholds: PeerScoreThresholds<N>,
        callback: bool,
    ) -> (r: Self)
        requires
            params.wf(),
        ensures
            r.wf(),
            r@ == ScoreView::fresh(params@, thresholds, callback),
    {
        let r = PeerScore {
            params,
            thresholds,
            peer_stats: Table::new(),
            peer_ips: Table::new(),
            deliveries: TimeCache::new(Duration::from_secs(TIME_CACHE_DURATION)),
            reports_delivery_times: callback,
            clock: Clock::start(),
        };
        proof {
            assert(r@.peers =~= Map::empty());
            assert(r@.ips =~= Map::empty());
            assert(r@.deliveries =~= Map::empty());
        }
        r
    }

    /// The parameters that peers are scored by.
    pub fn params(&self) -> (r: &PeerScoreParams<N>)
        requires
            self.wf(),
        ensures
            r.wf(),
            r@ == self@.params,
    {
        &self.params
    }

    /// The scores under which peers are treated worse, and over which they are treated better.
    pub fn thresholds(&self) -> (r: &PeerScoreThresholds<N>)
        requires
            self.wf(),
        ensures
            *r == self@.thresholds,
    {
        &self.thresholds
    }

    /// The weighted scores of the topics of a peer, summed up, and the penalties that went into
    /// them.
    fn rate_topics(&self, peer_stats: &PeerStats<N>) -> (report: PeerScoreReport<N>)
        requires
            self.tables_wf(),
            peer_stats.wf(),
        ensures
            report.score == self@.topics_sum(peer_stats@, peer_stats@.topic_order.len() as int),
            report.penalties@ == self@.topic_penalties(
                peer_stats@,
                peer_stats@.topic_order.len() as int,
            ),
    {
        let mut report: PeerScoreReport<N> = PeerScoreReport::default();
        let n: usize = peer_stats.topics.len();
        let mut i: usize = 0;
        while i < n
            invariant
                self.tables_wf(),
                peer_stats.wf(),
                i <= n,
                n == peer_stats@.topic_order.len(),
                report.score == self@.topics_sum(peer_stats@, i as int),
                report.penalties@ == self@.topic_penalties(peer_stats@, i as int),
            decreases n - i,
        {
            // topic parameters
            if let Some(topic_params) = self.params.topics.get(peer_stats.topics.key_at(i)) {
                let (topic_score, deficit_counted) = rate_topic(
                    topic_params,
                    peer_stats.topics.value_at(i),
                );
                if deficit_counted {
                    report.penalties.push(Penalty::MessageDeficit);
                }
                report.score = report.score.plus(topic_score.times(topic_params.topic_weight));
            }
            i = i + 1;
        }
        report
    }

    /// Adds to `report` what the addresses of a peer cost it.
    fn rate_addresses(&self, peer_stats: &PeerStats<N>, report: &mut PeerScoreReport<N>)
        requires
            self.tables_wf(),
            peer_stats.wf(),
        ensures
            final(report).score == self@.colocation_sum(
                peer_stats@,
                old(report).score,
                peer_stats@.known_ips.len() as int,
            ),
            final(report).penalties@ == self@.colocation_penalties(
                peer_stats@,
                old(report).penalties@,
                peer_stats@.known_ips.len() as int,
            ),
    {
        let threshold = self.params.ip_colocation_factor_threshold;
        let weight = self.params.ip_colocation_factor_weight;
        let n: usize = peer_stats.known_ips.len();
        let mut i: usize = 0;
        while i < n
            invariant
                self.tables_wf(),
                peer_stats.wf(),
                threshold == self.params.ip_colocation_factor_threshold,
                weight == self.params.ip_colocation_factor_weight,
                i <= n,
                n == peer_stats@.known_ips.len(),
                report.score == self@.colocation_sum(peer_stats@, old(report).score, i as int),
                report.penalties@ == self@.colocation_penalties(
                    peer_stats@,
                    old(report).penalties@,
                    i as int,
                ),
            decreases n - i,
        {
            let ip = peer_stats.known_ips.key_at(i);
            if !self.params.ip_colocation_factor_whitelist.contains_key(ip) {
                // P6 has a cliff: it is applied only if more peers than the threshold are behind
                // the address. It is quadratic, and the weight is meant to be negative.
                if let Some(peers) = self.peer_ips.get(ip) {
                    let peers_in_ip = N::of_count(peers.len());
                    if threshold.below(peers_in_ip) && !weight.same(N::of_count(0)) {
                        let surplus = peers_in_ip.minus(threshold);
                        let p6 = surplus.times(surplus);
                        report.penalties.push(Penalty::IPColocation);
                        report.score = report.score.plus(p6.times(weight));
                    }
                }
            }
            i = i + 1;
        }
    }

    /// The score of a peer, with the penalties that went into it.
    pub fn score_report(&self, peer_id: &PeerId) -> (report: PeerScoreReport<N>)
        requires
            self.wf(),
        ensures
            report.score == self@.score(*peer_id),
            report.penalties@ == self@.penalties(*peer_id),
    {
        let peer_stats = match self.peer_stats.get(peer_id) {
            Some(peer_stats) => peer_stats,
            None => {
                return PeerScoreReport::default();
            },
        };

        // topic scores
        let mut report = self.rate_topics(peer_stats);

        // apply the topic score cap, if any
        let cap = self.params.topic_score_cap;
        if N::of_count(0).below(cap) && cap.below(report.score) {
            report.score = cap;
        }

        // P5: application-specific score
        let p5 = peer_stats.application_score;
        report.score = report.score.plus(p5.times(self.params.app_specific_weight));

        // P6: IP collocation factor
        self.rate_addresses(peer_stats, &mut report);

        // P7: behavioural pattern penalty
        let behaviour_threshold = self.params.behaviour_penalty_threshold;
        if behaviour_threshold.below(peer_stats.behaviour_penalty) {
            let excess = peer_stats.behaviour_penalty.minus(behaviour_threshold);
            let p7 = excess.times(excess);
            report.score = report.score.plus(p7.times(self.params.behaviour_penalty_weight));
        }

        // slow peer weighting
        let slow_threshold = self.params.slow_peer_threshold;
        if slow_threshold.below(peer_stats.slow_peer_penalty) {
            let excess = peer_stats.slow_peer_penalty.minus(slow_threshold);
            report.score = report.score.plus(excess.times(self.params.slow_peer_weight));
        }

        report
    }

    /// Counts one more invalid message in a topic that is scored.
    fn mark_invalid_message_delivery(&mut self, peer_id: &PeerId, topic_hash: &TopicHash)
        requires
            old(self).wf(),
        ensures
            final(self).wf(),
            final(self).clock() == old(self).clock(),
            final(self)@ == old(self)@.invalid_delivered(*peer_id, topic_hash@),
    {
        let ghost before = *self;
        if let Some(peer_stats) = self.peer_stats.get_mut(peer_id) {
            if let Some(topic_stats) = peer_stats.stats_or_default_mut(
                topic_hash.duplicate(),
                &self.params,
            ) {
                topic_stats.count_invalid_delivery();
            }
        }
        proof {
            touched_keeps(
                before@,
                *peer_id,
                topic_hash@,
                |s: TopicStats<N>| s.invalid_delivered(),
            );
            assert(self@ =~= before@.invalid_delivered(*peer_id, topic_hash@));
        }
    }

    /// Counts one more message in a scored topic that the peer was the first to deliver, and one
    /// more delivery from the mesh, if the peer is in the mesh of the topic.
    fn mark_first_message_delivery(&mut self, peer_id: &PeerId, topic_hash: &TopicHash)
        requires
            old(self).wf(),
        ensures
            final(self).wf(),
            final(self).clock() == old(self).clock(),
            final(self)@ == old(self)@.first_delivered(*peer_id, topic_hash@),
    {
        let ghost before = *self;
        if let Some(peer_stats) = self.peer_stats.get_mut(peer_id) {
            if let Some(topic_stats) = peer_stats.stats_or_default_mut(
                topic_hash.duplicate(),
                &self.params,
            ) {
                // a topic with counters is scored
                let topic_params = self.params.topics.get(topic_hash).unwrap();
                topic_stats.count_first_delivery(topic_params);
            }
        }
        proof {
            let params = before@.params.topics[topic_hash@];
            touched_keeps(
                before@,
                *peer_id,
                topic_hash@,
                |s: TopicStats<N>| s.first_delivered(params),
            );
            assert(self@ =~= before@.first_delivered(*peer_id, topic_hash@));
        }
    }

    /// Counts one more delivery from the mesh of a message that was seen before, as long as it
    /// came within the window of the topic after it was validated at `validated_time`. Without
    /// such a time the message came before it was validated, and counts.
    fn mark_duplicate_message_delivery(
        &mut self,
        peer_id: &PeerId,
        topic_hash: &TopicHash,
        validated_time: Option<Moment>,
        now: Moment,
    )
        requires
            old(self).wf(),
        ensures
            final(self).wf(),
            final(self).clock() == old(self).clock(),
            final(self)@ == old(self)@.duplicate_delivered(
                *peer_id,
                topic_hash@,
                old(self)@.duplicate_counts(topic_hash@, validated_time, now),
            ),
    {
        let ghost before = *self;
        let ghost counts = self@.duplicate_counts(topic_hash@, validated_time, now);
        if let Some(peer_stats) = self.peer_stats.get_mut(peer_id) {
            if let Some(topic_stats) = peer_stats.stats_or_default_mut(
                topic_hash.duplicate(),
                &self.params,
            ) {
                if topic_stats.in_mesh() {
                    // a topic with counters is scored
                    let topic_params = self.params.topics.get(topic_hash).unwrap();
                    let mut falls_in_mesh_deliver_window = true;
                    if let Some(validated_time) = validated_time {
                        let window_time = match validated_time.checked_add(
                            topic_params.mesh_message_deliveries_window,
                        ) {
                            Some(window_time) => window_time,
                            None => now,
                        };
                        if now.nanos > window_time.nanos {
                            falls_in_mesh_deliver_window = false;
                        }
                    }
                    if falls_in_mesh_deliver_window {
                        topic_stats.count_mesh_delivery(topic_params);
                    }
                }
            }
        }
        proof {
            let params = before@.params.topics[topic_hash@];
            touched_keeps(
                before@,
                *peer_id,
                topic_hash@,
                |s: TopicStats<N>|
                    if counts {
                        s.mesh_delivered(params)
                    } else {
                        s
                    },
            );
            assert(self@ =~= before@.duplicate_delivered(*peer_id, topic_hash@, counts));
        }
    }

    /// What is known of a message, to be changed.
    fn record_mut(&mut self, msg_id: &MessageId, now: Moment) -> (r: &mut DeliveryRecord)
        requires
            old(self).wf(),
            now.has_room(record_lifetime()),
        ensures
            r.wf(),
            r@ == old(self)@.record(msg_id@, now),
            final(self)@ == old(self)@.with_record(msg_id@, final(r)@, now),
            final(self).clock() == old(self).clock(),
            final(r).wf() && final(r)@.inv() ==> final(self).wf(),
    {
        let ghost before = *self;
        let record = self.deliveries.entry_or(
            msg_id.duplicate(),
            DeliveryRecord::new(now),
            now,
        );
        proof {
            live_agrees(before.deliveries@, now);
            assert(deliveries_view(after_borrow(self).deliveries@) =~= before@.with_record(
                msg_id@,
                final(record)@,
                now,
            ).deliveries);
            assert forall|v: RecordView| v.inv() implies #[trigger] before@.with_record(
                msg_id@,
                v,
                now,
            ).inv() by {
                with_record_keeps(before@, msg_id@, v, now);
            }
        }
        record
    }

    /// Whether a peer is known to be in the mesh of a topic.
    fn peer_in_mesh(&self, peer_id: &PeerId, topic_hash: &TopicHash) -> (r: bool)
        requires
            self.wf(),
        ensures
            r == self@.in_mesh(*peer_id, topic_hash@),
    {
        match self.peer_stats.get(peer_id) {
            Some(peer_stats) => match peer_stats.topics.get(topic_hash) {
                Some(topic_stats) => topic_stats.in_mesh(),
                None => false,
            },
            None => false,
        }
    }

    /// The validation of a message that `from` has delivered begins at `now`. Returns the delivery
    /// time to be reported, if there is one.
    pub fn validate_message_at(
        &mut self,
        from: &PeerId,
        msg_id: &MessageId,
        topic_hash: &TopicHash,
        now: Moment,
    ) -> (report: Option<N>)
        requires
            old(self).wf(),
            now.has_room(record_lifetime()),
        ensures
            final(self).wf(),
            final(self).clock() == old(self).clock(),
            final(self)@ == old(self)@.validating(msg_id@, now),
            report == old(self)@.validation_report(*from, topic_hash@),
    {
        proof {
            record_is_sound(self@, msg_id@, now);
        }
        // adds an empty record with the message id
        let _ = self.record_mut(msg_id, now);
        if self.reports_delivery_times && self.peer_in_mesh(from, topic_hash) {
            Some(N::of_count(0))
        } else {
            None
        }
    }

    /// A message that `from` was the first to deliver was found valid at `now`.
    pub fn deliver_message_at(
        &mut self,
        from: &PeerId,
        msg_id: &MessageId,
        topic_hash: &TopicHash,
        now: Moment,
    )
        requires
            old(self).wf(),
            now.has_room(record_lifetime()),
        ensures
            final(self).wf(),
            final(self).clock() == old(self).clock(),
            final(self)@ == old(self)@.delivered(*from, msg_id@, topic_hash@, now),
    {
        self.mark_first_message_delivery(from, topic_hash);
        let ghost rewarded = self@;
        proof {
            record_is_sound(self@, msg_id@, now);
        }

        let record = self.record_mut(msg_id, now);

        // this should be the first delivery trace
        if record.status != DeliveryStatus::Unknown {
            return;
        }

        // mark the message as valid and reward mesh peers that have already forwarded it to us
        record.status = DeliveryStatus::Valid(now);
        let peers = record.list_peers();
        let ghost noted = self@;
        let ghost params = noted.params.topics[topic_hash@];
        let ghost f = |s: TopicStats<N>| s.mesh_delivered(params);
        let n: usize = peers.len();
        let mut i: usize = 0;
        proof {
            assert(noted.all_touched(
                peers@.take(0).to_set().remove(*from),
                topic_hash@,
                f,
            ).peers =~= noted.peers);
        }
        while i < n
            invariant
                i <= n,
                n == peers@.len(),
                peers@.no_duplicates(),
                self.wf(),
                self.clock() == old(self).clock(),
                params == noted.params.topics[topic_hash@],
                f == (|s: TopicStats<N>| s.mesh_delivered(params)),
                self@ == noted.all_touched(
                    peers@.take(i as int).to_set().remove(*from),
                    topic_hash@,
                    f,
                ),
            decreases n - i,
        {
            let peer = peers[i];
            let ghost ids = peers@.take(i as int).to_set().remove(*from);
            let ghost more = peers@.take(i + 1).to_set().remove(*from);
            proof {
                assert(peers@.take(i + 1) =~= peers@.take(i as int).push(peer));
                peers@.take(i as int).lemma_push_to_set_commute(peer);
                assert(!peers@.take(i as int).contains(peer));
            }
            // this check is to make sure a peer can't send us a message twice and get a double
            // count if it is a first delivery
            if !peer.same(from) {
                proof {
                    one_more_touched(
                        noted,
                        ids,
                        peer,
                        topic_hash@,
                        f,
                        |s: TopicStats<N>|
                            if true {
                                s.mesh_delivered(params)
                            } else {
                                s
                            },
                    );
                    assert(more =~= ids.insert(peer));
                }
                self.mark_duplicate_message_delivery(&peer, topic_hash, None, now);
            } else {
                assert(more =~= ids);
            }
            i = i + 1;
        }
        assert(peers@.take(n as int) =~= peers@);
    }

    /// A message that `from` has delivered is invalid, and nothing else is known of it.
    pub fn reject_invalid_message(&mut self, from: &PeerId, topic_hash: &TopicHash)
        requires
            old(self).wf(),
        ensures
            final(self).wf(),
            final(self).clock() == old(self).clock(),
            final(self)@ == old(self)@.invalid_delivered(*from, topic_hash@),
    {
        self.mark_invalid_message_delivery(from, topic_hash);
    }

    /// A message that `from` has delivered was rejected at `now`.
    pub fn reject_message_at(
        &mut self,
        from: &PeerId,
        msg_id: &MessageId,
        topic_hash: &TopicHash,
        reason: RejectReason,
        now: Moment,
    )
        requires
            old(self).wf(),
            now.has_room(record_lifetime()),
        ensures
            final(self).wf(),
            final(self).clock() == old(self).clock(),
            final(self)@ == old(self)@.rejected(*from, msg_id@, topic_hash@, reason, now),
    {
        match reason {
            // these messages are not tracked, but the peer is penalized as they are invalid
            RejectReason::ValidationError(_) | RejectReason::SelfOrigin => {
                self.reject_invalid_message(from, topic_hash);
                return;
            },
            // we ignore those messages, so do nothing
            RejectReason::BlackListedPeer | RejectReason::BlackListedSource => {
                return;
            },
            // the rest are handled after record creation
            RejectReason::ValidationIgnored | RejectReason::ValidationFailed => {},
        }
        proof {
            record_is_sound(self@, msg_id@, now);
        }

        let record = self.record_mut(msg_id, now);

        // Multiple peers can now reject the same message as we track which peers send us the
        // message. If we have already updated the status, return.
        if record.status != DeliveryStatus::Unknown {
            return;
        }
        let peers = record.list_peers();
        record.peers = Table::new();
        assert(record@.peers =~= Set::empty());
        if let RejectReason::ValidationIgnored = reason {
            // we were explicitly instructed by the validator to ignore the message but not
            // penalize the peer
            record.status = DeliveryStatus::Ignored;
            return;
        }

        // mark the message as invalid and penalize peers that have already forwarded it
        record.status = DeliveryStatus::Invalid;

        self.mark_invalid_message_delivery(from, topic_hash);
        let ghost blamed = self@;
        let ghost f = |s: TopicStats<N>| s.invalid_delivered();
        let n: usize = peers.len();
        let mut i: usize = 0;
        proof {
            assert(blamed.all_touched(peers@.take(0).to_set(), topic_hash@, f).peers
                =~= blamed.peers);
        }
        while i < n
            invariant
                i <= n,
                n == peers@.len(),
                peers@.no_duplicates(),
                self.wf(),
                self.clock() == old(self).clock(),
                f == (|s: TopicStats<N>| s.invalid_delivered()),
                self@ == blamed.all_touched(peers@.take(i as int).to_set(), topic_hash@, f),
            decreases n - i,
        {
            let peer = peers[i];
            proof {
                assert(peers@.take(i + 1) =~= peers@.take(i as int).push(peer));
                peers@.take(i as int).lemma_push_to_set_commute(peer);
                assert(!peers@.take(i as int).contains(peer));
                one_more_touched(blamed, peers@.take(i as int).to_set(), peer, topic_hash@, f, f);
            }
            self.mark_invalid_message_delivery(&peer, topic_hash);
            i = i + 1;
        }
        assert(peers@.take(n as int) =~= peers@);
    }

    /// `from` has delivered a message at `now` that was known before. Returns the delivery time
    /// to be reported, if there is one.
    pub fn duplicated_message_at(
        &mut self,
        from: &PeerId,
        msg_id: &MessageId,
        topic_hash: &TopicHash,
        now: Moment,
    ) -> (report: Option<N>)
        requires
            old(self).wf(),
            now.has_room(record_lifetime()),
        ensures
            final(self).wf(),
            final(self).clock() == old(self).clock(),
            final(self)@ == old(self)@.duplicated(*from, msg_id@, topic_hash@, now),
            report == old(self)@.duplicate_report(*from, msg_id@, topic_hash@, now),
    {
        let ghost before = self@;
        let ghost known = before.record(msg_id@, now);
        proof {
            record_is_sound(self@, msg_id@, now);
        }
        let record = self.record_mut(msg_id, now);

        if record.peers.contains_key(from) {
            // we have already seen this duplicate!
            return None;
        }
        let status = record.status;
        match status {
            DeliveryStatus::Unknown | DeliveryStatus::Valid(_) => {
                // the message is being validated: track the peer delivery and wait for the
                // outcome; or it is valid: only count a duplicate delivery once
                record.peers.insert(*from, ());
                assert(record@.peers =~= known.peers.insert(*from));
            },
            DeliveryStatus::Invalid | DeliveryStatus::Ignored => {},
        }
        let report = if self.reports_delivery_times && self.peer_in_mesh(from, topic_hash) {
            Some(
                match status {
                    DeliveryStatus::Valid(validated) => N::seconds(now.duration_since(validated)),
                    _ => N::of_count(0),
                },
            )
        } else {
            None
        };
        match status {
            DeliveryStatus::Unknown => {},
            DeliveryStatus::Valid(validated) => {
                self.mark_duplicate_message_delivery(from, topic_hash, Some(validated), now);
            },
            DeliveryStatus::Invalid => {
                // we no longer track who delivered the message
                self.mark_invalid_message_delivery(from, topic_hash);
            },
            DeliveryStatus::Ignored => {
                // the message was ignored; do nothing (we don't know if it was valid)
            },
        }
        report
    }

    /// A peer has misbehaved `count` times.
    pub fn add_penalty(&mut self, peer_id: &PeerId, count: usize)
        requires
            old(self).wf(),
        ensures
            final(self).wf(),
            final(self).clock() == old(self).clock(),
            final(self)@ == old(self)@.penalty_added(*peer_id, count),
    {
        let ghost before = *self;
        proof {
            counters_change_keeps(before@, *peer_id);
        }
        if let Some(peer_stats) = self.peer_stats.get_mut(peer_id) {
            peer_stats.behaviour_penalty = peer_stats.behaviour_penalty.plus(N::of_count(count));
        }
        assert(self@ =~= before@.penalty_added(*peer_id, count));
    }

    /// A peer was too slow to take a message.
    pub fn failed_message_slow_peer(&mut self, peer_id: &PeerId)
        requires
            old(self).wf(),
        ensures
            final(self).wf(),
            final(self).clock() == old(self).clock(),
            final(self)@ == old(self)@.slowness_noted(*peer_id),
    {
        let ghost before = *self;
        proof {
            counters_change_keeps(before@, *peer_id);
        }
        if let Some(peer_stats) = self.peer_stats.get_mut(peer_id) {
            peer_stats.slow_peer_penalty = peer_stats.slow_peer_penalty.plus(N::of_count(1));
        }
        assert(self@ =~= before@.slowness_noted(*peer_id));
    }

    /// Sets the application specific score of a peer at `now`. Returns true if the peer is connected
    /// or its score is not yet expired, and false otherwise, in which case nothing is set.
    pub fn set_application_score_at(
        &mut self,
        peer_id: &PeerId,
        new_score: N,
        now: Moment,
    ) -> (r: bool)
        requires
            old(self).wf(),
        ensures
            final(self).wf(),
            final(self).clock() == old(self).clock(),
            r == old(self)@.holds_score(*peer_id, now),
            final(self)@ == if r {
                old(self)@.application_score_set(*peer_id, new_score)
            } else {
                old(self)@
            },
    {
        let ghost before = *self;
        proof {
            counters_change_keeps(before@, *peer_id);
        }
        let mut held = false;
        if let Some(peer_stats) = self.peer_stats.get_mut(peer_id) {
            held = match peer_stats.status {
                ConnectionStatus::Connected => true,
                ConnectionStatus::Disconnected { expire } => now.nanos <= expire.nanos,
            };
            if held {
                peer_stats.application_score = new_score;
            }
        }
        proof {
            if held {
                assert(self@ =~= before@.application_score_set(*peer_id, new_score));
            } else {
                assert(self@ =~= before@);
            }
        }
        held
    }

    /// A peer has connected. Its addresses come later, through [`PeerScore::add_ip`].
    pub fn add_peer(&mut self, peer_id: PeerId)
        requires
            old(self).wf(),
        ensures
            final(self).wf(),
            final(self).clock() == old(self).clock(),
            final(self)@ == old(self)@.peer_added(peer_id),
    {
        let ghost before = *self;
        let peer_stats = self.peer_stats.get_or_insert_mut(peer_id, PeerStats::default());

        // mark the peer as connected
        peer_stats.status = ConnectionStatus::Connected;
        proof {
            peer_added_keeps(before@, peer_id);
            assert(self@ =~= before@.peer_added(peer_id));
        }
    }

    /// A peer has connected from an address; it need not be known.
    pub fn add_ip(&mut self, peer_id: &PeerId, ip: IpAddr)
        requires
            old(self).wf(),
        ensures
            final(self).wf(),
            final(self).clock() == old(self).clock(),
            final(self)@ == old(self)@.ip_added(*peer_id, ip),
    {
        let ghost before = *self;
        let peer_stats = self.peer_stats.get_or_insert_mut(*peer_id, PeerStats::default());

        // Mark the peer as connected (currently the default is connected, but we don't want to
        // rely on the default).
        peer_stats.status = ConnectionStatus::Connected;

        // Insert the ip
        peer_stats.known_ips.insert(ip, ());
        let peers = self.peer_ips.get_or_insert_mut(ip, Table::new());
        peers.insert(*peer_id, ());
        proof {
            ip_added_keeps(before@, *peer_id, ip);
            assert(self@.peers =~= before@.ip_added(*peer_id, ip).peers);
            assert(self@.ips =~= before@.ip_added(*peer_id, ip).ips);
        }
    }

    /// A peer no longer uses an address.
    pub fn remove_ip(&mut self, peer_id: &PeerId, ip: &IpAddr)
        requires
            old(self).wf(),
        ensures
            final(self).wf(),
            final(self).clock() == old(self).clock(),
            final(self)@ == old(self)@.ip_removed(*peer_id, *ip),
    {
        let ghost before = *self;
        if let Some(peer_stats) = self.peer_stats.get_mut(peer_id) {
            let _ = peer_stats.known_ips.remove(ip);
            if let Some(peer_ids) = self.peer_ips.get_mut(ip) {
                let _ = peer_ids.remove(peer_id);
            }
        }
        proof {
            ip_removed_keeps(before@, *peer_id, *ip);
            assert(self@.peers =~= before@.ip_removed(*peer_id, *ip).peers);
            assert(self@.ips =~= before@.ip_removed(*peer_id, *ip).ips);
        }
    }

    /// A peer was grafted into the mesh of a topic at `now`.
    pub fn graft_at(&mut self, peer_id: &PeerId, topic: TopicHash, now: Moment)
        requires
            old(self).wf(),
        ensures
            final(self).wf(),
            final(self).clock() == old(self).clock(),
            final(self)@ == old(self)@.grafted(*peer_id, topic@, now),
    {
        let ghost before = *self;
        if let Some(peer_stats) = self.peer_stats.get_mut(peer_id) {
            // if we are scoring the topic, update the mesh status
            if let Some(topic_stats) = peer_stats.stats_or_default_mut(topic, &self.params) {
                topic_stats.graft(now);
            }
        }
        proof {
            touched_keeps(before@, *peer_id, topic@, |s: TopicStats<N>| s.grafted(now));
            assert(self@ =~= before@.grafted(*peer_id, topic@, now));
        }
    }

    /// A peer was pruned from the mesh of a topic.
    pub fn prune(&mut self, peer_id: &PeerId, topic: TopicHash)
        requires
            old(self).wf(),
        ensures
            final(self).wf(),
            final(self).clock() == old(self).clock(),
            final(self)@ == old(self)@.pruned(*peer_id, topic@),
    {
        let ghost before = *self;
        if let Some(peer_stats) = self.peer_stats.get_mut(peer_id) {
            // if we are scoring the topic, update the mesh status
            if let Some(topic_stats) = peer_stats.stats_or_default_mut(
                topic.duplicate(),
                &self.params,
            ) {
                // a topic with counters is scored
                let topic_params = self.params.topics.get(&topic).unwrap();
                // sticky mesh delivery rate failure penalty
                topic_stats.prune(topic_params.mesh_message_deliveries_threshold);
            }
        }
        proof {
            let threshold = before@.params.topics[topic@].mesh_message_deliveries_threshold;
            touched_keeps(before@, *peer_id, topic@, |s: TopicStats<N>| s.pruned(threshold));
            assert(self@ =~= before@.pruned(*peer_id, topic@));
        }
    }

    /// The parameters of a topic, if it is scored.
    pub fn get_topic_params(&self, topic_hash: &TopicHash) -> (r: Option<&TopicScoreParams<N>>)
        requires
            self.wf(),
        ensures
            match r {
                Some(params) => self@.params.topics.contains_key(topic_hash@) && *params
                    == self@.params.topics[topic_hash@],
                None => !self@.params.topics.contains_key(topic_hash@),
            },
    {
        self.params.topics.get(topic_hash)
    }

    /// The number of message deliveries of a peer from the mesh of a topic, if they are counted.
    pub fn mesh_message_deliveries(&self, peer: &PeerId, topic: &TopicHash) -> (r: Option<N>)
        requires
            self.wf(),
        ensures
            r == (if self@.peers.contains_key(*peer) && self@.peers[*peer].topics.contains_key(
                topic@,
            ) {
                Some(self@.peers[*peer].topics[topic@].mesh_message_deliveries)
            } else {
                None
            }),
    {
        match self.peer_stats.get(peer) {
            Some(peer_stats) => match peer_stats.topics.get(topic) {
                Some(topic_stats) => Some(topic_stats.mesh_message_deliveries),
                None => None,
            },
            None => None,
        }
    }

    /// Takes a peer off the lists of the peers behind its addresses.
    fn remove_ips_for_peer(
        peer_stats: &PeerStats<N>,
        peer_ips: &mut Table<IpAddr, KeySet<PeerId>>,
        peer_id: &PeerId,
    )
        requires
            peer_stats.wf(),
            old(peer_ips).wf(),
            forall|ip: IpAddr| #[trigger]
                old(peer_ips)@.contains_key(ip) ==> old(peer_ips)@[ip].wf(),
        ensures
            final(peer_ips).wf(),
            forall|ip: IpAddr| #[trigger]
                final(peer_ips)@.contains_key(ip) ==> final(peer_ips)@[ip].wf(),
            ips_view(final(peer_ips)@) == ips_view(old(peer_ips)@).map_entries(
                |ip: IpAddr, ids: Set<PeerId>|
                    if peer_stats@.known_ips.contains(ip) {
                        ids.remove(*peer_id)
                    } else {
                        ids
                    },
            ),
    {
        let ghost before = peer_ips@;
        let ghost known = peer_stats@.known_ips;
        let n: usize = peer_stats.known_ips.len();
        let mut i: usize = 0;
        while i < n
            invariant
                i <= n,
                known == peer_stats@.known_ips,
                n == known.len(),
                peer_stats.wf(),
                peer_ips.wf(),
                peer_ips@.dom() == before.dom(),
                forall|ip: IpAddr| #[trigger]
                    before.contains_key(ip) ==> {
                        let done = known.take(i as int).contains(ip);
                        &&& peer_ips@[ip].wf()
                        &&& peer_ips@[ip]@.dom() == if done {
                            before[ip]@.dom().remove(*peer_id)
                        } else {
                            before[ip]@.dom()
                        }
                    },
            decreases n - i,
        {
            let ghost prior = peer_ips@;
            let ip = peer_stats.known_ips.key_at(i);
            proof {
                assert(known.take(i + 1) =~= known.take(i as int).push(*ip));
                assert forall|k: IpAddr| #[trigger] known.take(i + 1).contains(k) <==> known.take(
                    i as int,
                ).contains(k) || k == *ip by {
                    if known.take(i as int).contains(k) {
                        let j = known.take(i as int).index_of(k);
                        assert(known.take(i + 1)[j] == k);
                    }
                    assert(known.take(i + 1)[i as int] == *ip);
                }
            }
            if let Some(peer_set) = peer_ips.get_mut(ip) {
                let _ = peer_set.remove(peer_id);
                assert(peer_ips@.dom() =~= prior.dom());
                assert(peer_ips@[*ip]@.dom() =~= before[*ip]@.dom().remove(*peer_id));
            }
            i = i + 1;
        }
        proof {
            assert(known.take(n as int) =~= known);
            assert(ips_view(peer_ips@) =~= ips_view(before).map_entries(
                |ip: IpAddr, ids: Set<PeerId>|
                    if known.contains(ip) {
                        ids.remove(*peer_id)
                    } else {
                        ids
                    },
            ));
        }
    }

    /// A peer has left at `now`. Its counters are kept if its score is not positive.
    pub fn remove_peer_at(&mut self, peer_id: &PeerId, now: Moment)
        requires
            old(self).wf(),
            now.has_room(old(self)@.params.retain_score),
        ensures
            final(self).wf(),
            final(self).clock() == old(self).clock(),
            final(self)@ == old(self)@.peer_removed(*peer_id, now),
    {
        let ghost before = *self;
        proof {
            peer_removed_keeps(before@, *peer_id, now);
        }
        // we only retain non-positive scores of peers
        if N::of_count(0).below(self.score_report(peer_id).score) {
            if let Some(peer_stats) = self.peer_stats.remove(peer_id) {
                Self::remove_ips_for_peer(&peer_stats, &mut self.peer_ips, peer_id);
            }
            assert(self@.peers =~= before@.peer_removed(*peer_id, now).peers);
            assert(self@.ips =~= before@.peer_removed(*peer_id, now).ips);
            return;
        }

        // if the peer is retained (with its score), the counters of first deliveries are reset and
        // deficits in meshes become mesh failures
        if let Some(peer_stats) = self.peer_stats.get_mut(peer_id) {
            let expire = Moment { nanos: now.nanos + self.params.retain_score.nanos };
            peer_stats.depart(&self.params, expire);
        }
        assert(self@ =~= before@.peer_removed(*peer_id, now));
    }

    /// Decays the counters of the connected peers, and lists the peers whose counters may be
    /// thrown away.
    fn decay_connected(&mut self, now: Moment) -> (expired: Vec<PeerId>)
        requires
            old(self).tables_wf(),
        ensures
            final(self).tables_wf(),
            final(self).clock() == old(self).clock(),
            final(self)@ == (ScoreView { peers: final(self)@.peers, ..old(self)@ }),
            final(self)@.peers == old(self)@.peers.map_values(
                |peer: PeerView<N>|
                    if peer.status is Connected {
                        peer.refreshed(old(self)@.params, now)
                    } else {
                        peer
                    },
            ),
            expired@.no_duplicates(),
            forall|id: PeerId| #[trigger]
                expired@.contains(id) <==> old(self)@.peers.contains_key(id)
                    && old(self)@.peers[id].expired(now),
    {
        let ghost before = *self;
        let ghost after = before@.peers.map_values(
            |peer: PeerView<N>|
                if peer.status is Connected {
                    peer.refreshed(before@.params, now)
                } else {
                    peer
                },
        );
        let ghost keys = self.peer_stats.keys();
        proof {
            self.peer_stats.keys_enumerate();
        }
        let mut expired: Vec<PeerId> = Vec::new();
        let n: usize = self.peer_stats.len();
        let mut i: usize = 0;
        while i < n
            invariant
                i <= n,
                n == keys.len(),
                keys == before.peer_stats.keys(),
                before.tables_wf(),
                self.tables_wf(),
                *self == (PeerScore { peer_stats: self.peer_stats, ..before }),
                self.peer_stats.keys() == keys,
                self.peer_stats@.dom() == before.peer_stats@.dom(),
                after == before@.peers.map_values(
                    |peer: PeerView<N>|
                        if peer.status is Connected {
                            peer.refreshed(before@.params, now)
                        } else {
                            peer
                        },
                ),
                forall|j: int|
                    #![trigger keys[j]]
                    0 <= j < n ==> before.peer_stats@.contains_key(keys[j])
                        && self.peer_stats@[keys[j]]@ == if j < i {
                        after[keys[j]]
                    } else {
                        before@.peers[keys[j]]
                    },
                expired@.no_duplicates(),
                forall|id: PeerId| #[trigger]
                    expired@.contains(id) <==> keys.take(i as int).contains(id)
                        && before@.peers[id].expired(now),
            decreases n - i,
        {
            let ghost prior = *self;
            let ghost listed = expired@;
            let peer_id = *self.peer_stats.key_at(i);
            proof {
                before.peer_stats.keys_enumerate();
                assert(keys[i as int] == peer_id);
                assert(self.peer_stats@[peer_id]@ == before@.peers[peer_id]);
                assert forall|id: PeerId| #[trigger] keys.take(i + 1).contains(id) <==> keys.take(
                    i as int,
                ).contains(id) || id == peer_id by {
                    if keys.take(i as int).contains(id) {
                        let j = keys.take(i as int).index_of(id);
                        assert(keys.take(i + 1)[j] == id);
                    }
                    assert(keys.take(i + 1)[i as int] == peer_id);
                }
                assert(!keys.take(i as int).contains(peer_id));
            }
            let status = self.peer_stats.value_at(i).status;
            match status {
                ConnectionStatus::Disconnected { expire } => {
                    // has the retention period expired?
                    if now.nanos > expire.nanos {
                        assert(!listed.contains(peer_id));
                        expired.push(peer_id);
                        proof {
                            assert forall|id: PeerId| #[trigger]
                                expired@.contains(id) <==> listed.contains(id) || id == peer_id by {
                                if listed.contains(id) {
                                    assert(expired@[listed.index_of(id)] == id);
                                }
                                assert(expired@[listed.len() as int] == peer_id);
                            }
                        }
                    }
                    // We don't decay retained scores, as the peer is not active. This way the peer
                    // cannot reset a negative score by simply disconnecting and reconnecting,
                    // unless the retention period has elapsed.
                },
                ConnectionStatus::Connected => {
                    let peer_stats = self.peer_stats.value_at_mut(i);
                    peer_stats.refresh(&self.params, now);
                    assert(self.peer_stats@.dom() =~= prior.peer_stats@.dom());
                },
            }
            i = i + 1;
        }
        proof {
            before.peer_stats.keys_enumerate();
            assert(keys.take(n as int) =~= keys);
            assert forall|id: PeerId| #[trigger]
                before.peer_stats@.contains_key(id) implies self.peer_stats@[id]@ == after[id] by {
                assert(keys.contains(id));
                assert(keys[keys.index_of(id)] == id);
            }
            assert(self@.peers =~= after);
        }
        expired
    }

    /// Decays the counters of the connected peers, and throws the counters of those away that left
    /// long enough before `now`.
    pub fn refresh_scores_at(&mut self, now: Moment)
        requires
            old(self).wf(),
        ensures
            final(self).wf(),
            final(self).clock() == old(self).clock(),
            final(self)@ == old(self)@.refreshed(now),
    {
        let ghost before = self@;
        proof {
            refreshed_keeps(before, now);
        }
        let expired = self.decay_connected(now);
        let ghost decayed = *self;
        proof {
            assert forall|id: PeerId| #[trigger]
                before.peers.contains_key(id) == decayed.peer_stats@.contains_key(id) by {
                assert(decayed@.peers.contains_key(id) == decayed.peer_stats@.contains_key(id));
            }
        }
        let n: usize = expired.len();
        let mut i: usize = 0;
        while i < n
            invariant
                i <= n,
                n == expired@.len(),
                expired@.no_duplicates(),
                self.tables_wf(),
                *self == (PeerScore {
                    peer_stats: self.peer_stats,
                    peer_ips: self.peer_ips,
                    ..decayed
                }),
                forall|id: PeerId| #[trigger]
                    expired@.contains(id) ==> decayed.peer_stats@.contains_key(id),
                forall|id: PeerId| #[trigger]
                    self.peer_stats@.contains_key(id) <==> decayed.peer_stats@.contains_key(id)
                        && !expired@.take(i as int).contains(id),
                forall|id: PeerId| #[trigger]
                    self.peer_stats@.contains_key(id) ==> self.peer_stats@[id]
                        == decayed.peer_stats@[id],
                self@.ips.dom() == decayed@.ips.dom(),
                forall|ip: IpAddr, id: PeerId| #[trigger]
                    decayed@.ips.contains_key(ip) ==> (#[trigger] self@.ips[ip].contains(id) <==> (
                    decayed@.ips[ip].contains(id) && !(expired@.take(i as int).contains(id)
                        && decayed@.peers[id].known_ips.contains(ip)))),
            decreases n - i,
        {
            let ghost prior = *self;
            let peer_id = expired[i];
            proof {
                assert(expired@.contains(peer_id));
                assert(!expired@.take(i as int).contains(peer_id));
                assert forall|id: PeerId| #[trigger]
                    expired@.take(i + 1).contains(id) <==> expired@.take(i as int).contains(id)
                        || id == peer_id by {
                    if expired@.take(i as int).contains(id) {
                        let j = expired@.take(i as int).index_of(id);
                        assert(expired@.take(i + 1)[j] == id);
                    }
                    assert(expired@.take(i + 1)[i as int] == peer_id);
                }
            }
            // throw it away (but clean up the IP tracking first)
            if let Some(peer_stats) = self.peer_stats.remove(&peer_id) {
                Self::remove_ips_for_peer(&peer_stats, &mut self.peer_ips, &peer_id);
            }
            i = i + 1;
        }
        proof {
            assert(expired@.take(n as int) =~= expired@);
            assert forall|id: PeerId| #[trigger] self@.peers.contains_key(id) == before.refreshed(
                now,
            ).peers.contains_key(id) by {
                assert(expired@.contains(id) <==> before.peers.contains_key(id)
                    && before.peers[id].expired(now));
                assert(self.peer_stats@.contains_key(id) == self@.peers.contains_key(id));
            }
            assert forall|id: PeerId| #[trigger]
                self@.peers.contains_key(id) implies self@.peers[id] == before.refreshed(
                now,
            ).peers[id] by {
                assert(self.peer_stats@.contains_key(id));
                assert(decayed@.peers[id] == self@.peers[id]);
            }
            assert(self@.peers =~= before.refreshed(now).peers);
            assert forall|ip: IpAddr| #[trigger] before.ips.contains_key(ip) implies self@.ips[ip]
                == before.refreshed(now).ips[ip] by {
                assert(self@.ips[ip] =~= before.refreshed(now).ips[ip]);
            }
            assert(self@.ips =~= before.refreshed(now).ips);
        }
    }

    /// Sets the parameters that a topic is scored by.
    pub fn set_topic_params(&mut self, topic_hash: TopicHash, params: TopicScoreParams<N>)
        requires
            old(self).wf(),
        ensures
            final(self).wf(),
            final(self).clock() == old(self).clock(),
            final(self)@ == old(self)@.topic_params_set(topic_hash@, params),
    {
        let ghost before = *self;
        let ghost topic = topic_hash@;
        proof {
            topic_params_set_keeps(before@, topic, params);
        }
        let old_params = match self.params.topics.get(&topic_hash) {
            Some(old_params) => Some(*old_params),
            None => None,
        };
        self.params.topics.insert(topic_hash.duplicate(), params);
        if let Some(old_params) = old_params {
            let ghost after = before@.topic_params_set(topic, params);
            let ghost keys = self.peer_stats.keys();
            proof {
                self.peer_stats.keys_enumerate();
            }
            let n: usize = self.peer_stats.len();
            let mut i: usize = 0;
            while i < n
                invariant
                    i <= n,
                    n == keys.len(),
                    topic == topic_hash@,
                    keys == before.peer_stats.keys(),
                    before.wf(),
                    self.tables_wf(),
                    self@.params == after.params,
                    *self == (PeerScore {
                        peer_stats: self.peer_stats,
                        params: self.params,
                        ..before
                    }),
                    self.peer_stats.keys() == keys,
                    self.peer_stats@.dom() == before.peer_stats@.dom(),
                    after == before@.topic_params_set(topic, params),
                    before@.params.topics.contains_key(topic),
                    old_params == before@.params.topics[topic],
                    forall|j: int|
                        #![trigger keys[j]]
                        0 <= j < n ==> before.peer_stats@.contains_key(keys[j])
                            && self.peer_stats@[keys[j]]@ == if j < i {
                            after.peers[keys[j]]
                        } else {
                            before@.peers[keys[j]]
                        },
                decreases n - i,
            {
                let ghost prior = *self;
                proof {
                    before.peer_stats.keys_enumerate();
                    self.peer_stats@[keys[i as int]].topics.keys_enumerate();
                }
                let stats = self.peer_stats.value_at_mut(i);
                if let Some(topic_stats) = stats.topics.get_mut(&topic_hash) {
                    topic_stats.recap(&old_params, &params);
                }
                proof {
                    assert(self.peer_stats@.dom() =~= prior.peer_stats@.dom());
                    assert(self.peer_stats@[keys[i as int]]@ =~= after.peers[keys[i as int]]);
                }
                i = i + 1;
            }
            proof {
                before.peer_stats.keys_enumerate();
                assert forall|id: PeerId| #[trigger]
                    before.peer_stats@.contains_key(id) implies self.peer_stats@[id]@
                    == after.peers[id] by {
                    assert(keys.contains(id));
                    assert(keys[keys.index_of(id)] == id);
                }
                assert(self@.peers =~= after.peers);
            }
        }
    }

    /// Decays the counters of the connected peers, and throws the counters of those away that left
    /// long enough ago.
    pub fn refresh_scores(&mut self)
        requires
            old(self).wf(),
        ensures
            final(self).wf(),
            final(self).clock() == old(self).clock(),
            exists|now: Moment|
                old(self).clock().shows(now) && now.nanos <= CLOCK_LIMIT
                    && final(self)@ == #[trigger] old(self)@.refreshed(now),
    {
        let now = self.clock.now();
        self.refresh_scores_at(now)
    }

    /// A peer has left. Its counters are kept if its score is not positive.
    pub fn remove_peer(&mut self, peer_id: &PeerId)
        requires
            old(self).wf(),
            old(self)@.params.retain_score.nanos <= u128::MAX - CLOCK_LIMIT,
        ensures
            final(self).wf(),
            final(self).clock() == old(self).clock(),
            exists|now: Moment|
                old(self).clock().shows(now) && now.nanos <= CLOCK_LIMIT
                    && final(self)@ == #[trigger] old(self)@.peer_removed(
                    *peer_id,
                    now,
                ),
    {
        let now = self.clock.now();
        self.remove_peer_at(peer_id, now)
    }

    /// Sets the application specific score of a peer. Returns true if the peer is connected or its
    /// score is not yet expired, and false otherwise, in which case nothing is set.
    pub fn set_application_score(&mut self, peer_id: &PeerId, new_score: N) -> (r: bool)
        requires
            old(self).wf(),
        ensures
            final(self).wf(),
            final(self).clock() == old(self).clock(),
            exists|now: Moment|
                old(self).clock().shows(now) && now.nanos <= CLOCK_LIMIT
                    && r == #[trigger] old(self)@.holds_score(*peer_id, now),
            final(self)@ == if r {
                old(self)@.application_score_set(*peer_id, new_score)
            } else {
                old(self)@
            },
    {
        let now = self.clock.now();
        self.set_application_score_at(peer_id, new_score, now)
    }

    /// A peer was grafted into the mesh of a topic.
    pub fn graft(&mut self, peer_id: &PeerId, topic: TopicHash)
        requires
            old(self).wf(),
        ensures
            final(self).wf(),
            final(self).clock() == old(self).clock(),
            exists|now: Moment|
                old(self).clock().shows(now) && now.nanos <= CLOCK_LIMIT
                    && final(self)@ == #[trigger] old(self)@.grafted(
                    *peer_id,
                    topic@,
                    now,
                ),
    {
        let now = self.clock.now();
        self.graft_at(peer_id, topic, now)
    }

    /// The validation of a message that `from` has delivered begins. Returns the delivery time to
    /// be reported, if there is one.
    pub fn validate_message(
        &mut self,
        from: &PeerId,
        msg_id: &MessageId,
        topic_hash: &TopicHash,
    ) -> (report: Option<N>)
        requires
            old(self).wf(),
        ensures
            final(self).wf(),
            final(self).clock() == old(self).clock(),
            exists|now: Moment|
                old(self).clock().shows(now) && now.nanos <= CLOCK_LIMIT
                    && final(self)@ == #[trigger] old(self)@.validating(
                    msg_id@,
                    now,
                ),
            report == old(self)@.validation_report(*from, topic_hash@),
    {
        let now = self.clock.now();
        self.validate_message_at(from, msg_id, topic_hash, now)
    }

    /// A message that `from` was the first to deliver was found valid.
    pub fn deliver_message(&mut self, from: &PeerId, msg_id: &MessageId, topic_hash: &TopicHash)
        requires
            old(self).wf(),
        ensures
            final(self).wf(),
            final(self).clock() == old(self).clock(),
            exists|now: Moment|
                old(self).clock().shows(now) && now.nanos <= CLOCK_LIMIT
                    && final(self)@ == #[trigger] old(self)@.delivered(
                    *from,
                    msg_id@,
                    topic_hash@,
                    now,
                ),
    {
        let now = self.clock.now();
        self.deliver_message_at(from, msg_id, topic_hash, now)
    }

    /// A message that `from` has delivered was rejected.
    pub fn reject_message(
        &mut self,
        from: &PeerId,
        msg_id: &MessageId,
        topic_hash: &TopicHash,
        reason: RejectReason,
    )
        requires
            old(self).wf(),
        ensures
            final(self).wf(),
            final(self).clock() == old(self).clock(),
            exists|now: Moment|
                old(self).clock().shows(now) && now.nanos <= CLOCK_LIMIT
                    && final(self)@ == #[trigger] old(self)@.rejected(
                    *from,
                    msg_id@,
                    topic_hash@,
                    reason,
                    now,
                ),
    {
        let now = self.clock.now();
        self.reject_message_at(from, msg_id, topic_hash, reason, now)
    }

    /// `from` has delivered a message that was known before. Returns the delivery time to be
    /// reported, if there is one.
    pub fn duplicated_message(
        &mut self,
        from: &PeerId,
        msg_id: &MessageId,
        topic_hash: &TopicHash,
    ) -> (report: Option<N>)
        requires
            old(self).wf(),
        ensures
            final(self).wf(),
            final(self).clock() == old(self).clock(),
            exists|now: Moment|
                old(self).clock().shows(now) && now.nanos <= CLOCK_LIMIT
                    && final(self)@ == #[trigger] old(self)@.duplicated(
                    *from,
                    msg_id@,
                    topic_hash@,
                    now,
                ) && report == old(self)@.duplicate_report(*from, msg_id@, topic_hash@, now),
    {
        let now = self.clock.now();
        self.duplicated_message_at(from, msg_id, topic_hash, now)
    }
}

/// The records that are not gone say what they say.
proof fn live_agrees(records: Map<Seq<u8>, Cached<DeliveryRecord>>, now: Moment)
    ensures
        deliveries_view(live(records, now)) == live(deliveries_view(records), now),
{
    assert(deliveries_view(live(records, now)) =~= live(deliveries_view(records), now));
}

/// Scores of peers, if peers are scored at all.
pub enum PeerScoreState<N> {
    Active(Box<PeerScore<N>>),
    Disabled,
}

impl<N: Number> PeerScoreState<N> {
    /// Whether the score of a peer is below the threshold that `threshold` picks, and the score.
    /// Where peers are not scored, none is below any threshold, and every score is zero.
    pub fn below_threshold(
        &self,
        peer_id: &PeerId,
        threshold: impl Fn(&PeerScoreThresholds<N>) -> N,
    ) -> (r: (bool, N))
        requires
            match self {
                PeerScoreState::Active(active) => active.wf() && call_requires(
                    threshold,
                    (&active@.thresholds,),
                ),
                PeerScoreState::Disabled => true,
            },
        ensures
            match self {
                PeerScoreState::Active(active) => r.1 == active@.score(*peer_id) && exists|t: N|
                    #[trigger] call_ensures(threshold, (&active@.thresholds,), t) && r.0
                        == r.1.below_spec(t),
                PeerScoreState::Disabled => !r.0 && r.1 == zero::<N>(),
            },
    {
        match self {
            PeerScoreState::Active(active) => {
                let score = active.score_report(peer_id).score;
                (score.below(threshold(&active.thresholds)), score)
            },
            PeerScoreState::Disabled => (false, N::of_count(0)),
        }
    }
}

} // verus!
