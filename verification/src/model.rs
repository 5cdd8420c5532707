//! The scoring rules as mathematics: what the state of the scores is, what a peer's score is, and
//! what each event makes of the state.
use crate::delivery::{live, Cached, DeliveryStatus, RecordView};
use crate::ids::IpAddr;
use crate::number::{at_most, squared, zero, Number};
use crate::params::{ParamsView, PeerScoreThresholds, TopicScoreParams};
use crate::reason::{Penalty, RejectReason};
use crate::stats::{in_window, ConnectionStatus, MeshStatus, PeerView, TopicStats};
use crate::table::{with_key, without_key};
use crate::time::{Duration, Moment};
use libp2p_identity::PeerId;
use vstd::prelude::*;

verus! {

/// The number of seconds that the record of a message is kept.
pub const TIME_CACHE_DURATION: u64 = 120;

/// How long the record of a message is kept.
pub open spec fn record_lifetime() -> Duration {
    Duration { nanos: (TIME_CACHE_DURATION * 1_000_000_000) as u128 }
}

/// The state of the scores.
#[verifier::ext_equal]
pub struct ScoreView<N> {
    pub params: ParamsView<N>,
    pub thresholds: PeerScoreThresholds<N>,
    /// What is counted of each peer.
    pub peers: Map<PeerId, PeerView<N>>,
    /// The peers behind each address.
    pub ips: Map<IpAddr, Set<PeerId>>,
    /// What is known of each message.
    pub deliveries: Map<Seq<u8>, Cached<RecordView>>,
    /// Whether somebody wants to hear of delivery times.
    pub reports_delivery_times: bool,
}

/// P3 applies: there is a deficit, and it has a weight.
pub open spec fn deficit_counts<N: Number>(
    params: TopicScoreParams<N>,
    stats: TopicStats<N>,
) -> bool {
    &&& stats.has_deficit(params.mesh_message_deliveries_threshold)
    &&& !params.mesh_message_deliveries_weight.same_spec(zero())
}

/// The score of a peer in one topic, before the topic's own weight.
pub open spec fn topic_score<N: Number>(params: TopicScoreParams<N>, stats: TopicStats<N>) -> N {
    // P1: time in mesh
    let s1 = match stats.mesh_status {
        MeshStatus::Active { mesh_time, .. } => zero::<N>().plus_spec(
            at_most(
                N::seconds_spec(mesh_time).over_spec(N::seconds_spec(params.time_in_mesh_quantum)),
                params.time_in_mesh_cap,
            ).times_spec(params.time_in_mesh_weight),
        ),
        MeshStatus::InActive => zero(),
    };
    // P2: first message deliveries
    let s2 = s1.plus_spec(
        at_most(
            stats.first_message_deliveries,
            params.first_message_deliveries_cap,
        ).times_spec(params.first_message_deliveries_weight),
    );
    // P3: deficit of mesh message deliveries
    let s3 = if deficit_counts(params, stats) {
        s2.plus_spec(
            stats.deficit_squared(params.mesh_message_deliveries_threshold).times_spec(
                params.mesh_message_deliveries_weight,
            ),
        )
    } else {
        s2
    };
    // P3b: mesh failures
    let s3b = s3.plus_spec(
        stats.mesh_failure_penalty.times_spec(params.mesh_failure_penalty_weight),
    );
    // P4: invalid messages
    s3b.plus_spec(
        squared(stats.invalid_message_deliveries).times_spec(
            params.invalid_message_deliveries_weight,
        ),
    )
}

/// `score`, or `cap` where there is a positive cap and the score is above it.
pub open spec fn topics_capped<N: Number>(score: N, cap: N) -> N {
    if zero::<N>().below_spec(cap) && cap.below_spec(score) {
        cap
    } else {
        score
    }
}

impl<N: Number> ScoreView<N> {
    /// The weighted scores of the first `n` topics of `peer`, summed up.
    pub open spec fn topics_sum(self, peer: PeerView<N>, n: int) -> N
        decreases n,
    {
        if n <= 0 {
            zero()
        } else {
            let topic = peer.topic_order[n - 1];
            let sum = self.topics_sum(peer, n - 1);
            if self.params.topics.contains_key(topic) {
                sum.plus_spec(
                    topic_score(self.params.topics[topic], peer.topics[topic]).times_spec(
                        self.params.topics[topic].topic_weight,
                    ),
                )
            } else {
                sum
            }
        }
    }

    /// The penalties for deficits in the first `n` topics of `peer`.
    pub open spec fn topic_penalties(self, peer: PeerView<N>, n: int) -> Seq<Penalty>
        decreases n,
    {
        if n <= 0 {
            Seq::empty()
        } else {
            let topic = peer.topic_order[n - 1];
            let penalties = self.topic_penalties(peer, n - 1);
            if self.params.topics.contains_key(topic) && deficit_counts(
                self.params.topics[topic],
                peer.topics[topic],
            ) {
                penalties.push(Penalty::MessageDeficit)
            } else {
                penalties
            }
        }
    }

    /// The number of peers behind `ip`.
    pub open spec fn peers_behind(self, ip: IpAddr) -> N {
        N::of_count_spec(self.ips[ip].len() as usize)
    }

    /// P6 applies: more peers than the threshold are behind `ip`, which is not whitelisted, and
    /// that has a weight.
    pub open spec fn colocation_counts(self, ip: IpAddr) -> bool {
        &&& !self.params.ip_colocation_factor_whitelist.contains(ip)
        &&& self.ips.contains_key(ip)
        &&& self.params.ip_colocation_factor_threshold.below_spec(self.peers_behind(ip))
        &&& !self.params.ip_colocation_factor_weight.same_spec(zero())
    }

    /// `score`, and the weighted squares of what is too much behind the first `n` addresses of
    /// `peer`.
    pub open spec fn colocation_sum(self, peer: PeerView<N>, score: N, n: int) -> N
        decreases n,
    {
        if n <= 0 {
            score
        } else {
            let ip = peer.known_ips[n - 1];
            let sum = self.colocation_sum(peer, score, n - 1);
            if self.colocation_counts(ip) {
                sum.plus_spec(
                    squared(
                        self.peers_behind(ip).minus_spec(
                            self.params.ip_colocation_factor_threshold,
                        ),
                    ).times_spec(self.params.ip_colocation_factor_weight),
                )
            } else {
                sum
            }
        }
    }

    /// `penalties`, and those for the first `n` addresses of `peer`.
    pub open spec fn colocation_penalties(
        self,
        peer: PeerView<N>,
        penalties: Seq<Penalty>,
        n: int,
    ) -> Seq<Penalty>
        decreases n,
    {
        if n <= 0 {
            penalties
        } else {
            let before = self.colocation_penalties(peer, penalties, n - 1);
            if self.colocation_counts(peer.known_ips[n - 1]) {
                before.push(Penalty::IPColocation)
            } else {
                before
            }
        }
    }

    /// `score`, and P7: the weighted square of misbehaviour over the threshold.
    pub open spec fn behaviour_added(self, peer: PeerView<N>, score: N) -> N {
        if self.params.behaviour_penalty_threshold.below_spec(peer.behaviour_penalty) {
            score.plus_spec(
                squared(
                    peer.behaviour_penalty.minus_spec(self.params.behaviour_penalty_threshold),
                ).times_spec(self.params.behaviour_penalty_weight),
            )
        } else {
            score
        }
    }

    /// `score`, and the weighted slowness over the threshold.
    pub open spec fn slowness_added(self, peer: PeerView<N>, score: N) -> N {
        if self.params.slow_peer_threshold.below_spec(peer.slow_peer_penalty) {
            score.plus_spec(
                peer.slow_peer_penalty.minus_spec(self.params.slow_peer_threshold).times_spec(
                    self.params.slow_peer_weight,
                ),
            )
        } else {
            score
        }
    }

    /// The score of a peer of which `peer` is counted.
    pub open spec fn score_of(self, peer: PeerView<N>) -> N {
        let topics = topics_capped(
            self.topics_sum(peer, peer.topic_order.len() as int),
            self.params.topic_score_cap,
        );
        let app = topics.plus_spec(
            peer.application_score.times_spec(self.params.app_specific_weight),
        );
        let ips = self.colocation_sum(peer, app, peer.known_ips.len() as int);
        self.slowness_added(peer, self.behaviour_added(peer, ips))
    }

    /// The penalties of a peer of which `peer` is counted.
    pub open spec fn penalties_of(self, peer: PeerView<N>) -> Seq<Penalty> {
        self.colocation_penalties(
            peer,
            self.topic_penalties(peer, peer.topic_order.len() as int),
            peer.known_ips.len() as int,
        )
    }

    /// The score of `id`; zero for a peer that is not known.
    pub open spec fn score(self, id: PeerId) -> N {
        if self.peers.contains_key(id) {
            self.score_of(self.peers[id])
        } else {
            zero()
        }
    }

    /// The penalties of `id`; none for a peer that is not known.
    pub open spec fn penalties(self, id: PeerId) -> Seq<Penalty> {
        if self.peers.contains_key(id) {
            self.penalties_of(self.peers[id])
        } else {
            Seq::empty()
        }
    }

    /// Whether `id` is known to be in the mesh of `topic`.
    pub open spec fn in_mesh(self, id: PeerId, topic: Seq<char>) -> bool {
        self.peers.contains_key(id) && self.peers[id].in_mesh(topic)
    }

    /// What every state of the scores keeps to.
    pub open spec fn inv(self) -> bool {
        &&& self.topics_are_scored()
        &&& self.deficits_need_the_mesh()
        &&& self.addresses_agree()
        &&& self.walks_are_complete()
        &&& self.records_are_sound()
    }

    /// A peer has counters in scored topics only.
    pub open spec fn topics_are_scored(self) -> bool {
        forall|id: PeerId, topic: Seq<char>|
            #![trigger self.peers[id].topics.contains_key(topic)]
            self.peers.contains_key(id) && self.peers[id].topics.contains_key(topic)
                ==> self.params.topics.contains_key(topic)
    }

    /// A deficit counts only against a peer that is in the mesh of the topic.
    pub open spec fn deficits_need_the_mesh(self) -> bool {
        forall|id: PeerId, topic: Seq<char>|
            #![trigger self.peers[id].topics.contains_key(topic)]
            #![trigger self.peers[id].topics[topic]]
            self.peers.contains_key(id) && self.peers[id].topics.contains_key(topic)
                ==> self.peers[id].topics[topic].inv()
    }

    /// `ip` is known of the known peer `id`.
    pub open spec fn knows(self, id: PeerId, ip: IpAddr) -> bool {
        self.peers.contains_key(id) && self.peers[id].known_ips.contains(ip)
    }

    /// `id` is listed behind `ip`.
    pub open spec fn lists(self, ip: IpAddr, id: PeerId) -> bool {
        self.ips.contains_key(ip) && self.ips[ip].contains(id)
    }

    /// A peer is listed behind an address if and only if the address is known of the peer.
    pub open spec fn addresses_agree(self) -> bool {
        forall|id: PeerId, ip: IpAddr|
            #![trigger self.knows(id, ip)]
            #![trigger self.lists(ip, id)]
            self.knows(id, ip) <==> self.lists(ip, id)
    }

    /// The score of a peer sums up each of its topics and addresses once.
    pub open spec fn walks_are_complete(self) -> bool {
        &&& forall|id: PeerId| #[trigger]
            self.peers.contains_key(id) ==> {
                &&& self.peers[id].topic_order.no_duplicates()
                &&& self.peers[id].topic_order.to_set() == self.peers[id].topics.dom()
                &&& self.peers[id].known_ips.no_duplicates()
            }
        &&& forall|ip: IpAddr| #[trigger] self.ips.contains_key(ip) ==> self.ips[ip].finite()
    }

    /// Nobody is remembered to have delivered a rejected message.
    pub open spec fn records_are_sound(self) -> bool {
        forall|m: Seq<u8>| #[trigger]
            self.deliveries.contains_key(m) ==> self.deliveries[m].value.inv()
    }

    /// The state before anything has happened.
    pub open spec fn fresh(
        params: ParamsView<N>,
        thresholds: PeerScoreThresholds<N>,
        reports_delivery_times: bool,
    ) -> Self {
        ScoreView {
            params,
            thresholds,
            peers: Map::empty(),
            ips: Map::empty(),
            deliveries: Map::empty(),
            reports_delivery_times,
        }
    }

    /// What is counted of `id`; nothing for a peer that is not known.
    pub open spec fn peer(self, id: PeerId) -> PeerView<N> {
        if self.peers.contains_key(id) {
            self.peers[id]
        } else {
            PeerView::fresh()
        }
    }

    /// What is counted of `id` is `peer`.
    pub open spec fn with_peer(self, id: PeerId, peer: PeerView<N>) -> Self {
        ScoreView { peers: self.peers.insert(id, peer), ..self }
    }

    /// What is counted of the known peers of `ids` in `topic` is changed by `f`.
    pub open spec fn all_touched(
        self,
        ids: Set<PeerId>,
        topic: Seq<char>,
        f: spec_fn(TopicStats<N>) -> TopicStats<N>,
    ) -> Self {
        ScoreView {
            peers: self.peers.map_entries(
                |id: PeerId, peer: PeerView<N>|
                    if ids.contains(id) {
                        peer.touched(topic, self.params.topics.contains_key(topic), f)
                    } else {
                        peer
                    },
            ),
            ..self
        }
    }

    /// What is counted of `id` in `topic` is changed by `f`, where the peer is known.
    pub open spec fn touched(
        self,
        id: PeerId,
        topic: Seq<char>,
        f: spec_fn(TopicStats<N>) -> TopicStats<N>,
    ) -> Self {
        if self.peers.contains_key(id) {
            self.with_peer(
                id,
                self.peers[id].touched(topic, self.params.topics.contains_key(topic), f),
            )
        } else {
            self
        }
    }

    /// One more first delivery in `topic` for `id`.
    pub open spec fn first_delivered(self, id: PeerId, topic: Seq<char>) -> Self {
        let params = self.params.topics[topic];
        self.touched(id, topic, |s: TopicStats<N>| s.first_delivered(params))
    }

    /// One more invalid message in `topic` for `id`.
    pub open spec fn invalid_delivered(self, id: PeerId, topic: Seq<char>) -> Self {
        self.touched(id, topic, |s: TopicStats<N>| s.invalid_delivered())
    }

    /// One more duplicate in `topic` for `id`, which counts for a peer of the mesh where `counts`.
    pub open spec fn duplicate_delivered(
        self,
        id: PeerId,
        topic: Seq<char>,
        counts: bool,
    ) -> Self {
        let params = self.params.topics[topic];
        self.touched(
            id,
            topic,
            |s: TopicStats<N>|
                if counts {
                    s.mesh_delivered(params)
                } else {
                    s
                },
        )
    }

    /// Whether a duplicate that comes at `now` counts: it does where the message had not been
    /// validated when the duplicate came, and within the window of the topic after that.
    pub open spec fn duplicate_counts(
        self,
        topic: Seq<char>,
        validated: Option<Moment>,
        now: Moment,
    ) -> bool {
        match validated {
            Some(at) => in_window(
                at,
                self.params.topics[topic].mesh_message_deliveries_window,
                now,
            ),
            None => true,
        }
    }

    /// What is known of `message` at `now`.
    pub open spec fn record(self, message: Seq<u8>, now: Moment) -> RecordView {
        if live(self.deliveries, now).contains_key(message) {
            self.deliveries[message].value
        } else {
            RecordView::fresh(now)
        }
    }

    /// What is known of `message` at `now` is `record`; records whose time is up are gone.
    pub open spec fn with_record(self, message: Seq<u8>, record: RecordView, now: Moment) -> Self {
        ScoreView {
            deliveries: live(self.deliveries, now).insert(
                message,
                Cached {
                    value: record,
                    expires: if live(self.deliveries, now).contains_key(message) {
                        self.deliveries[message].expires
                    } else {
                        now.after(record_lifetime())
                    },
                },
            ),
            ..self
        }
    }

    /// Nothing is counted of `id` any more, and it is behind no address of its own.
    pub open spec fn forgotten(self, id: PeerId) -> Self {
        ScoreView {
            peers: self.peers.remove(id),
            ips: self.ips.map_entries(
                |ip: IpAddr, ids: Set<PeerId>|
                    if self.peers[id].known_ips.contains(ip) {
                        ids.remove(id)
                    } else {
                        ids
                    },
            ),
            ..self
        }
    }

    /// A refresh at `now`.
    pub open spec fn refreshed(self, now: Moment) -> Self {
        ScoreView {
            peers: Map::new(
                |id: PeerId| self.peers.contains_key(id) && !self.peers[id].expired(now),
                |id: PeerId|
                    if self.peers[id].status is Connected {
                        self.peers[id].refreshed(self.params, now)
                    } else {
                        self.peers[id]
                    },
            ),
            ips: self.ips.map_entries(
                |ip: IpAddr, ids: Set<PeerId>|
                    ids.filter(
                        |id: PeerId|
                            !(self.peers.contains_key(id) && self.peers[id].expired(now)
                                && self.peers[id].known_ips.contains(ip)),
                    ),
            ),
            ..self
        }
    }

    /// `id` has connected.
    pub open spec fn peer_added(self, id: PeerId) -> Self {
        self.with_peer(id, PeerView { status: ConnectionStatus::Connected, ..self.peer(id) })
    }

    /// `id` has connected from `ip`.
    pub open spec fn ip_added(self, id: PeerId, ip: IpAddr) -> Self {
        ScoreView {
            ips: self.ips.insert(
                ip,
                (if self.ips.contains_key(ip) {
                    self.ips[ip]
                } else {
                    Set::empty()
                }).insert(id),
            ),
            ..self.with_peer(
                id,
                PeerView {
                    status: ConnectionStatus::Connected,
                    known_ips: with_key(self.peer(id).known_ips, ip),
                    ..self.peer(id)
                },
            )
        }
    }

    /// `id` no longer uses `ip`.
    pub open spec fn ip_removed(self, id: PeerId, ip: IpAddr) -> Self {
        if self.peers.contains_key(id) {
            ScoreView {
                ips: if self.ips.contains_key(ip) {
                    self.ips.insert(ip, self.ips[ip].remove(id))
                } else {
                    self.ips
                },
                ..self.with_peer(
                    id,
                    PeerView {
                        known_ips: without_key(self.peers[id].known_ips, ip),
                        ..self.peers[id]
                    },
                )
            }
        } else {
            self
        }
    }

    /// `id` has left at `now`: it is forgotten if its score is positive, and kept otherwise.
    pub open spec fn peer_removed(self, id: PeerId, now: Moment) -> Self {
        if !self.peers.contains_key(id) {
            self
        } else if zero::<N>().below_spec(self.score(id)) {
            self.forgotten(id)
        } else {
            self.with_peer(
                id,
                self.peers[id].departed(self.params, now.after(self.params.retain_score)),
            )
        }
    }

    /// `id` has misbehaved `count` times.
    pub open spec fn penalty_added(self, id: PeerId, count: usize) -> Self {
        if self.peers.contains_key(id) {
            let peer = self.peers[id];
            self.with_peer(
                id,
                PeerView {
                    behaviour_penalty: peer.behaviour_penalty.plus_spec(N::of_count_spec(count)),
                    ..peer
                },
            )
        } else {
            self
        }
    }

    /// `id` was too slow to take a message.
    pub open spec fn slowness_noted(self, id: PeerId) -> Self {
        if self.peers.contains_key(id) {
            let peer = self.peers[id];
            self.with_peer(
                id,
                PeerView {
                    slow_peer_penalty: peer.slow_peer_penalty.plus_spec(N::of_count_spec(1)),
                    ..peer
                },
            )
        } else {
            self
        }
    }

    /// `id` is connected at `now`, or its score has not expired yet.
    pub open spec fn holds_score(self, id: PeerId, now: Moment) -> bool {
        self.peers.contains_key(id) && !self.peers[id].expired(now)
    }

    /// The application has assigned `score` to `id`.
    pub open spec fn application_score_set(self, id: PeerId, score: N) -> Self {
        if self.peers.contains_key(id) {
            self.with_peer(id, PeerView { application_score: score, ..self.peers[id] })
        } else {
            self
        }
    }

    /// `id` was grafted into the mesh of `topic` at `now`.
    pub open spec fn grafted(self, id: PeerId, topic: Seq<char>, now: Moment) -> Self {
        self.touched(id, topic, |s: TopicStats<N>| s.grafted(now))
    }

    /// `id` was pruned from the mesh of `topic`.
    pub open spec fn pruned(self, id: PeerId, topic: Seq<char>) -> Self {
        let threshold = self.params.topics[topic].mesh_message_deliveries_threshold;
        self.touched(id, topic, |s: TopicStats<N>| s.pruned(threshold))
    }

    /// Validation of `message` begins at `now`.
    pub open spec fn validating(self, message: Seq<u8>, now: Moment) -> Self {
        self.with_record(message, self.record(message, now), now)
    }

    /// `message`, which `from` was the first to deliver, was found valid at `now`.
    pub open spec fn delivered(
        self,
        from: PeerId,
        message: Seq<u8>,
        topic: Seq<char>,
        now: Moment,
    ) -> Self {
        let rewarded = self.first_delivered(from, topic);
        let record = self.record(message, now);
        if record.status is Unknown {
            let params = self.params.topics[topic];
            rewarded.with_record(message, record.validated(now), now).all_touched(
                record.peers.remove(from),
                topic,
                |s: TopicStats<N>| s.mesh_delivered(params),
            )
        } else {
            rewarded.with_record(message, record, now)
        }
    }

    /// `message`, which `from` delivered, was rejected at `now`.
    pub open spec fn rejected(
        self,
        from: PeerId,
        message: Seq<u8>,
        topic: Seq<char>,
        reason: RejectReason,
        now: Moment,
    ) -> Self {
        let record = self.record(message, now);
        match reason {
            RejectReason::ValidationError(_) | RejectReason::SelfOrigin => {
                self.invalid_delivered(from, topic)
            },
            RejectReason::BlackListedPeer | RejectReason::BlackListedSource => self,
            RejectReason::ValidationIgnored => {
                if record.status is Unknown {
                    self.with_record(message, record.settled(DeliveryStatus::Ignored), now)
                } else {
                    self.with_record(message, record, now)
                }
            },
            RejectReason::ValidationFailed => {
                if record.status is Unknown {
                    self.with_record(
                        message,
                        record.settled(DeliveryStatus::Invalid),
                        now,
                    ).invalid_delivered(from, topic).all_touched(
                        record.peers,
                        topic,
                        |s: TopicStats<N>| s.invalid_delivered(),
                    )
                } else {
                    self.with_record(message, record, now)
                }
            },
        }
    }

    /// `from` has delivered `message` at `now`, which was known before.
    pub open spec fn duplicated(
        self,
        from: PeerId,
        message: Seq<u8>,
        topic: Seq<char>,
        now: Moment,
    ) -> Self {
        let record = self.record(message, now);
        if record.peers.contains(from) {
            self.with_record(message, record, now)
        } else {
            match record.status {
                DeliveryStatus::Unknown => {
                    self.with_record(message, record.delivered_by(from), now)
                },
                DeliveryStatus::Valid(at) => {
                    self.with_record(
                        message,
                        record.delivered_by(from),
                        now,
                    ).duplicate_delivered(from, topic, self.duplicate_counts(topic, Some(at), now))
                },
                DeliveryStatus::Invalid => {
                    self.with_record(message, record, now).invalid_delivered(from, topic)
                },
                DeliveryStatus::Ignored => self.with_record(message, record, now),
            }
        }
    }

    /// The delivery time to be reported of a message whose validation begins.
    pub open spec fn validation_report(self, from: PeerId, topic: Seq<char>) -> Option<N> {
        if self.reports_delivery_times && self.in_mesh(from, topic) {
            Some(zero())
        } else {
            None
        }
    }

    /// The delivery time to be reported of a duplicate of `message` that `from` has delivered at
    /// `now`: the time since the message was found valid, if it was.
    pub open spec fn duplicate_report(
        self,
        from: PeerId,
        message: Seq<u8>,
        topic: Seq<char>,
        now: Moment,
    ) -> Option<N> {
        let record = self.record(message, now);
        if self.reports_delivery_times && self.in_mesh(from, topic) && !record.peers.contains(
            from,
        ) {
            Some(
                match record.status {
                    DeliveryStatus::Valid(at) => N::seconds_spec(now.since(at)),
                    _ => zero(),
                },
            )
        } else {
            None
        }
    }

    /// `topic` is scored by `params` from now on.
    pub open spec fn topic_params_set(self, topic: Seq<char>, params: TopicScoreParams<N>) -> Self {
        let scored = ScoreView {
            params: ParamsView { topics: self.params.topics.insert(topic, params), ..self.params },
            ..self
        };
        if self.params.topics.contains_key(topic) {
            let before = self.params.topics[topic];
            ScoreView {
                peers: self.peers.map_values(
                    |peer: PeerView<N>|
                        if peer.topics.contains_key(topic) {
                            peer.with_topic(topic, peer.topics[topic].recapped(before, params))
                        } else {
                            peer
                        },
                ),
                ..scored
            }
        } else {
            scored
        }
    }
}

} // verus!
