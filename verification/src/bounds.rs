//! What holds across events where the numbers keep an order: counters and scores have bounds.
//!
//! A number need not keep an order for the scoring rules, so each law says what it asks of the
//! numbers. What is asked of all numbers of a kind holds of floating-point numbers, too.
use crate::delivery::{DeliveryStatus, RecordView};
use crate::ids::IpAddr;
use crate::laws::{leaving_resets_no_score, refreshed_at};
use crate::model::{topics_capped, ScoreView};
use crate::number::{
    asymmetric, bounds_carry_over, penalties_lower, squared, squares_raise, zero, Number,
};
use crate::params::{ParamsView, PeerScoreThresholds, TopicScoreParams};
use crate::reason::RejectReason;
use crate::stats::{PeerView, TopicStats};
use crate::time::Moment;
use libp2p_identity::PeerId;
use vstd::prelude::*;

verus! {

/// The addresses of a peer take its score over no bound where the weight is not positive.
proof fn addresses_add_nothing<N: Number>(
    s: ScoreView<N>,
    peer: PeerView<N>,
    score: N,
    n: int,
    bound: N,
)
    requires
        penalties_lower::<N>(),
        !zero::<N>().below_spec(s.params.ip_colocation_factor_weight),
        !bound.below_spec(score),
    ensures
        !bound.below_spec(s.colocation_sum(peer, score, n)),
    decreases n,
{
    if n > 0 {
        addresses_add_nothing(s, peer, score, n - 1, bound);
    }
}

/// Where there is a positive cap on what the topics count, no score is above the cap, however many
/// topics a peer serves, unless the application has assigned one or a penalty has a positive
/// weight. Of the numbers this asks that penalties lower a score.
pub proof fn score_is_capped<N: Number>(s: ScoreView<N>, id: PeerId)
    requires
        asymmetric::<N>(),
        penalties_lower::<N>(),
        zero::<N>().below_spec(s.params.topic_score_cap),
        s.peer(id).application_score == zero::<N>(),
        !zero::<N>().below_spec(s.params.ip_colocation_factor_weight),
        !zero::<N>().below_spec(s.params.behaviour_penalty_weight),
        !zero::<N>().below_spec(s.params.slow_peer_weight),
    ensures
        !s.params.topic_score_cap.below_spec(s.score(id)),
{
    let peer = s.peer(id);
    let cap = s.params.topic_score_cap;
    let topics = topics_capped(s.topics_sum(peer, peer.topic_order.len() as int), cap);
    assert(!cap.below_spec(cap));
    let app = topics.plus_spec(peer.application_score.times_spec(s.params.app_specific_weight));
    addresses_add_nothing(s, peer, app, peer.known_ips.len() as int, cap);
}

/// Two penalties count as one of their sum, wherever to add the two counts to the counter is to add
/// their sum, as it is for whole numbers that are not too large.
pub proof fn penalties_add_up<N: Number>(s: ScoreView<N>, id: PeerId, a: usize, b: usize)
    requires
        a + b <= usize::MAX,
        s.peers.contains_key(id) ==> {
            let x = s.peers[id].behaviour_penalty;
            x.plus_spec(N::of_count_spec(a)).plus_spec(N::of_count_spec(b)) == x.plus_spec(
                N::of_count_spec((a + b) as usize),
            )
        },
    ensures
        s.penalty_added(id, a).penalty_added(id, b) == s.penalty_added(id, (a + b) as usize),
{
    assert(s.penalty_added(id, a).penalty_added(id, b).peers =~= s.penalty_added(
        id,
        (a + b) as usize,
    ).peers);
}

/// A peer that leaves with a score that is not positive and comes back within the retention period
/// has no fewer mesh failures than before, however often the scores are refreshed meanwhile. Of the
/// numbers this asks that to add a square makes none smaller.
pub proof fn leaving_lowers_no_mesh_failure<N: Number>(
    s: ScoreView<N>,
    id: PeerId,
    left: Moment,
    times: Seq<Moment>,
)
    requires
        asymmetric::<N>(),
        squares_raise::<N>(),
        s.peers.contains_key(id),
        !zero::<N>().below_spec(s.score(id)),
        left.has_room(s.params.retain_score),
        forall|i: int|
            0 <= i < times.len() ==> (#[trigger] times[i]).nanos <= left.nanos
                + s.params.retain_score.nanos,
    ensures
        ({
            let after = refreshed_at(s.peer_removed(id, left), times).peer_added(id).peers[id];
            forall|t: Seq<char>| #[trigger]
                s.peers[id].topics.contains_key(t) ==> after.topics.contains_key(t)
                    && !after.topics[t].mesh_failure_penalty.below_spec(
                    s.peers[id].topics[t].mesh_failure_penalty,
                )
        }),
{
    leaving_resets_no_score(s, id, left, times);
    let after = refreshed_at(s.peer_removed(id, left), times).peer_added(id).peers[id];
    assert forall|t: Seq<char>| #[trigger]
        s.peers[id].topics.contains_key(t) implies after.topics.contains_key(t)
        && !after.topics[t].mesh_failure_penalty.below_spec(
        s.peers[id].topics[t].mesh_failure_penalty,
    ) by {
        assert(after.topics.dom().contains(t));
    }
}

/// The delivery counters of a topic are not above its caps.
pub open spec fn within_caps<N: Number>(stats: TopicStats<N>, params: TopicScoreParams<N>) -> bool {
    &&& !params.first_message_deliveries_cap.below_spec(stats.first_message_deliveries)
    &&& !params.mesh_message_deliveries_cap.below_spec(stats.mesh_message_deliveries)
}

/// The delivery counters of every peer, connected or not, are not above the caps of their topics.
pub open spec fn counters_within_caps<N: Number>(s: ScoreView<N>) -> bool {
    forall|id: PeerId, t: Seq<char>|
        #![trigger s.peers[id].topics.contains_key(t)]
        #![trigger s.peers[id].topics[t]]
        s.peers.contains_key(id) && s.peers[id].topics.contains_key(t)
            ==> s.params.topics.contains_key(t) && within_caps(
            s.peers[id].topics[t],
            s.params.topics[t],
        )
}

/// A counter may start at zero, reach `cap` and decay by `factor` without being over `cap`.
pub open spec fn cap_holds<N: Number>(cap: N, factor: N) -> bool {
    &&& !cap.below_spec(cap)
    &&& !cap.below_spec(zero())
    &&& forall|x: N| !cap.below_spec(x) ==> !cap.below_spec(#[trigger] x.times_spec(factor))
}

/// The caps on deliveries hold. They do where no cap is negative and deliveries decay by a factor
/// between zero and one, in fixed-point and in floating-point numbers.
pub open spec fn caps_are_sensible<N: Number>(params: ParamsView<N>) -> bool {
    forall|t: Seq<char>| #[trigger]
        params.topics.contains_key(t) ==> {
            let p = params.topics[t];
            &&& cap_holds(p.first_message_deliveries_cap, p.first_message_deliveries_decay)
            &&& cap_holds(p.mesh_message_deliveries_cap, p.mesh_message_deliveries_decay)
        }
}

/// Before anything has happened, no counter is above a cap.
pub proof fn counters_start_within_caps<N: Number>(
    params: ParamsView<N>,
    thresholds: PeerScoreThresholds<N>,
    reports_delivery_times: bool,
)
    ensures
        counters_within_caps(ScoreView::fresh(params, thresholds, reports_delivery_times)),
{
}

/// New parameters of a topic leave no counter of any peer above a cap, connected or not. Of the
/// numbers this asks that a new cap is not below itself, and that what is not over an old cap is not
/// over a new one that is no lower.
pub proof fn new_caps_leave_counters_within_caps<N: Number>(
    s: ScoreView<N>,
    topic: Seq<char>,
    params: TopicScoreParams<N>,
)
    requires
        counters_within_caps(s),
        !params.first_message_deliveries_cap.below_spec(params.first_message_deliveries_cap),
        !params.mesh_message_deliveries_cap.below_spec(params.mesh_message_deliveries_cap),
        s.params.topics.contains_key(topic) ==> {
            let before = s.params.topics[topic];
            &&& bounds_carry_over(
                before.first_message_deliveries_cap,
                params.first_message_deliveries_cap,
            )
            &&& bounds_carry_over(
                before.mesh_message_deliveries_cap,
                params.mesh_message_deliveries_cap,
            )
        },
    ensures
        counters_within_caps(s.topic_params_set(topic, params)),
{
    let after = s.topic_params_set(topic, params);
    assert forall|id: PeerId, t: Seq<char>|
        #![trigger after.peers[id].topics.contains_key(t)]
        after.peers.contains_key(id) && after.peers[id].topics.contains_key(
            t,
        ) implies after.params.topics.contains_key(t) && within_caps(
        after.peers[id].topics[t],
        after.params.topics[t],
    ) by {
        assert(s.peers[id].topics.contains_key(t));
    }
}

/// A change of counters that leaves them within the caps does so for all peers.
proof fn touched_stays_within_caps<N: Number>(
    s: ScoreView<N>,
    ids: Set<PeerId>,
    id: PeerId,
    topic: Seq<char>,
    f: spec_fn(TopicStats<N>) -> TopicStats<N>,
)
    requires
        counters_within_caps(s),
        caps_are_sensible(s.params),
        s.params.topics.contains_key(topic) ==> forall|t: TopicStats<N>|
            within_caps(t, s.params.topics[topic]) ==> within_caps(
                #[trigger] f(t),
                s.params.topics[topic],
            ),
    ensures
        counters_within_caps(s.touched(id, topic, f)),
        counters_within_caps(s.all_touched(ids, topic, f)),
{
    let scored = s.params.topics.contains_key(topic);
    let one = s.touched(id, topic, f);
    let all = s.all_touched(ids, topic, f);
    assert forall|p: PeerId, t: Seq<char>|
        #![trigger s.peers[p].touched(topic, scored, f).topics.contains_key(t)]
        s.peers.contains_key(p) && s.peers[p].touched(topic, scored, f).topics.contains_key(
            t,
        ) implies s.params.topics.contains_key(t) && within_caps(
        s.peers[p].touched(topic, scored, f).topics[t],
        s.params.topics[t],
    ) by {
    }
    assert forall|p: PeerId, t: Seq<char>|
        #![trigger one.peers[p].topics.contains_key(t)]
        one.peers.contains_key(p) && one.peers[p].topics.contains_key(
            t,
        ) implies one.params.topics.contains_key(t) && within_caps(
        one.peers[p].topics[t],
        one.params.topics[t],
    ) by {
        if p == id {
            assert(s.peers[p].touched(topic, scored, f).topics.contains_key(t));
        } else {
            assert(s.peers[p].topics.contains_key(t));
        }
    }
    assert forall|p: PeerId, t: Seq<char>|
        #![trigger all.peers[p].topics.contains_key(t)]
        all.peers.contains_key(p) && all.peers[p].topics.contains_key(
            t,
        ) implies all.params.topics.contains_key(t) && within_caps(
        all.peers[p].topics[t],
        all.params.topics[t],
    ) by {
        if ids.contains(p) {
            assert(s.peers[p].touched(topic, scored, f).topics.contains_key(t));
        } else {
            assert(s.peers[p].topics.contains_key(t));
        }
    }
}

/// A change that leaves the counters of topics alone leaves them within the caps.
proof fn same_topics_stay_within_caps<N: Number>(s: ScoreView<N>, after: ScoreView<N>)
    requires
        counters_within_caps(s),
        after.params == s.params,
        forall|id: PeerId| #[trigger]
            after.peers.contains_key(id) ==> after.peers[id].topics == s.peer(id).topics,
    ensures
        counters_within_caps(after),
{
    assert forall|id: PeerId, t: Seq<char>|
        #![trigger after.peers[id].topics.contains_key(t)]
        after.peers.contains_key(id) && after.peers[id].topics.contains_key(
            t,
        ) implies after.params.topics.contains_key(t) && within_caps(
        after.peers[id].topics[t],
        after.params.topics[t],
    ) by {
        if s.peers.contains_key(id) {
            assert(s.peers[id].topics.contains_key(t));
        }
    }
}

/// A refresh takes no counter over its cap.
proof fn refresh_stays_within_caps<N: Number>(s: ScoreView<N>, now: Moment)
    requires
        counters_within_caps(s),
        caps_are_sensible(s.params),
    ensures
        counters_within_caps(s.refreshed(now)),
{
    let after = s.refreshed(now);
    assert forall|id: PeerId, t: Seq<char>|
        #![trigger after.peers[id].topics.contains_key(t)]
        after.peers.contains_key(id) && after.peers[id].topics.contains_key(
            t,
        ) implies after.params.topics.contains_key(t) && within_caps(
        after.peers[id].topics[t],
        after.params.topics[t],
    ) by {
        assert(s.peers[id].topics.contains_key(t));
    }
}

/// A peer that leaves takes no counter over its cap.
proof fn departure_stays_within_caps<N: Number>(s: ScoreView<N>, id: PeerId, now: Moment)
    requires
        counters_within_caps(s),
        caps_are_sensible(s.params),
    ensures
        counters_within_caps(s.peer_removed(id, now)),
{
    let after = s.peer_removed(id, now);
    assert forall|p: PeerId, t: Seq<char>|
        #![trigger after.peers[p].topics.contains_key(t)]
        after.peers.contains_key(p) && after.peers[p].topics.contains_key(
            t,
        ) implies after.params.topics.contains_key(t) && within_caps(
        after.peers[p].topics[t],
        after.params.topics[t],
    ) by {
        assert(s.peers[p].topics.contains_key(t));
    }
}

/// A message takes no counter over its cap.
proof fn messages_stay_within_caps<N: Number>(
    s: ScoreView<N>,
    id: PeerId,
    message: Seq<u8>,
    topic: Seq<char>,
    reason: RejectReason,
    now: Moment,
)
    requires
        counters_within_caps(s),
        caps_are_sensible(s.params),
    ensures
        counters_within_caps(s.validating(message, now)),
        counters_within_caps(s.delivered(id, message, topic, now)),
        counters_within_caps(s.rejected(id, message, topic, reason, now)),
        counters_within_caps(s.duplicated(id, message, topic, now)),
{
    let params = s.params.topics[topic];
    let record = s.record(message, now);
    let nobody = Set::<PeerId>::empty();
    let first = |t: TopicStats<N>| t.first_delivered(params);
    let mesh = |t: TopicStats<N>| t.mesh_delivered(params);
    let invalid = |t: TopicStats<N>| t.invalid_delivered();
    assert forall|a: ScoreView<N>, r: RecordView|
        counters_within_caps(a) implies counters_within_caps(
        #[trigger] a.with_record(message, r, now),
    ) by {
        same_topics_stay_within_caps(a, a.with_record(message, r, now));
    }

    // a delivery
    touched_stays_within_caps(s, nobody, id, topic, first);
    let rewarded = s.first_delivered(id, topic).with_record(message, record.validated(now), now);
    touched_stays_within_caps(rewarded, record.peers.remove(id), id, topic, mesh);

    // a rejection
    let settled = s.with_record(message, record.settled(DeliveryStatus::Invalid), now);
    touched_stays_within_caps(s, nobody, id, topic, invalid);
    touched_stays_within_caps(settled, nobody, id, topic, invalid);
    let blamed = settled.invalid_delivered(id, topic);
    touched_stays_within_caps(blamed, record.peers, id, topic, invalid);

    // a duplicate
    touched_stays_within_caps(s.with_record(message, record, now), nobody, id, topic, invalid);
    if let DeliveryStatus::Valid(at) = record.status {
        let counts = s.duplicate_counts(topic, Some(at), now);
        touched_stays_within_caps(
            s.with_record(message, record.delivered_by(id), now),
            nobody,
            id,
            topic,
            |t: TopicStats<N>|
                if counts {
                    t.mesh_delivered(params)
                } else {
                    t
                },
        );
    }
}

/// In every state the delivery counters of every peer are not above the caps of their topics: the
/// first state is such a state, new parameters of a topic leave it so, and so does every other
/// event, where the caps hold at all.
pub proof fn counters_stay_within_caps<N: Number>(
    s: ScoreView<N>,
    id: PeerId,
    ip: IpAddr,
    message: Seq<u8>,
    topic: Seq<char>,
    reason: RejectReason,
    count: usize,
    score: N,
    now: Moment,
)
    requires
        counters_within_caps(s),
        caps_are_sensible(s.params),
    ensures
        counters_within_caps(s.refreshed(now)),
        counters_within_caps(s.peer_added(id)),
        counters_within_caps(s.ip_added(id, ip)),
        counters_within_caps(s.ip_removed(id, ip)),
        counters_within_caps(s.peer_removed(id, now)),
        counters_within_caps(s.penalty_added(id, count)),
        counters_within_caps(s.slowness_noted(id)),
        counters_within_caps(s.application_score_set(id, score)),
        counters_within_caps(s.grafted(id, topic, now)),
        counters_within_caps(s.pruned(id, topic)),
        counters_within_caps(s.invalid_delivered(id, topic)),
        counters_within_caps(s.validating(message, now)),
        counters_within_caps(s.delivered(id, message, topic, now)),
        counters_within_caps(s.rejected(id, message, topic, reason, now)),
        counters_within_caps(s.duplicated(id, message, topic, now)),
{
    refresh_stays_within_caps(s, now);
    departure_stays_within_caps(s, id, now);
    same_topics_stay_within_caps(s, s.peer_added(id));
    same_topics_stay_within_caps(s, s.ip_added(id, ip));
    same_topics_stay_within_caps(s, s.ip_removed(id, ip));
    same_topics_stay_within_caps(s, s.penalty_added(id, count));
    same_topics_stay_within_caps(s, s.slowness_noted(id));
    same_topics_stay_within_caps(s, s.application_score_set(id, score));
    messages_stay_within_caps(s, id, message, topic, reason, now);
    let params = s.params.topics[topic];
    let threshold = params.mesh_message_deliveries_threshold;
    let nobody = Set::<PeerId>::empty();
    touched_stays_within_caps(s, nobody, id, topic, |t: TopicStats<N>| t.grafted(now));
    touched_stays_within_caps(s, nobody, id, topic, |t: TopicStats<N>| t.pruned(threshold));
    touched_stays_within_caps(s, nobody, id, topic, |t: TopicStats<N>| t.invalid_delivered());
}

} // verus!
