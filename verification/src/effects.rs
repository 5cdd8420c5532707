//! What each event does to what is counted and remembered, told by what is there before and after
//! it.
use crate::delivery::{DeliveryStatus, RecordView};
use crate::ids::IpAddr;
use crate::model::ScoreView;
use crate::number::Number;
use crate::params::{ParamsView, PeerScoreThresholds, TopicScoreParams};
use crate::reason::RejectReason;
use crate::stats::{ConnectionStatus, MeshStatus, PeerView, TopicStats};
use crate::table::without_key;
use crate::time::{Duration, Moment};
use crate::upkeep::touched_keeps;
use libp2p_identity::PeerId;
use vstd::prelude::*;

verus! {

/// What is counted of `peer` in `topic`, which is nothing as long as there are no counters.
pub open spec fn counted<N: Number>(peer: PeerView<N>, topic: Seq<char>) -> TopicStats<N> {
    if peer.topics.contains_key(topic) {
        peer.topics[topic]
    } else {
        TopicStats {
            mesh_status: MeshStatus::InActive,
            first_message_deliveries: N::of_count_spec(0),
            mesh_message_deliveries_active: false,
            mesh_message_deliveries: N::of_count_spec(0),
            mesh_failure_penalty: N::of_count_spec(0),
            invalid_message_deliveries: N::of_count_spec(0),
        }
    }
}

/// `after` has counters in `topic`, and is otherwise what `before` is.
pub open spec fn differs_in_topic<N: Number>(
    before: PeerView<N>,
    after: PeerView<N>,
    topic: Seq<char>,
) -> bool {
    &&& after.status == before.status
    &&& after.known_ips == before.known_ips
    &&& after.behaviour_penalty == before.behaviour_penalty
    &&& after.application_score == before.application_score
    &&& after.slow_peer_penalty == before.slow_peer_penalty
    &&& after.topics.dom() == before.topics.dom().insert(topic)
    &&& forall|t: Seq<char>| #[trigger]
        before.topics.contains_key(t) && t != topic ==> after.topics[t] == before.topics[t]
    &&& before.topics.contains_key(topic) ==> after.topic_order == before.topic_order
    &&& !before.topics.contains_key(topic) ==> after.topic_order == before.topic_order.push(topic)
}

/// `after` has the peers, addresses, parameters and thresholds of `before`, and reports alike; what
/// is counted and remembered may differ.
pub open spec fn same_setting<N: Number>(before: ScoreView<N>, after: ScoreView<N>) -> bool {
    &&& after.params == before.params
    &&& after.thresholds == before.thresholds
    &&& after.ips == before.ips
    &&& after.reports_delivery_times == before.reports_delivery_times
    &&& after.peers.dom() == before.peers.dom()
}

/// Nothing but the counters of `id` in `topic` differs.
pub open spec fn differs_in_counters<N: Number>(
    before: ScoreView<N>,
    after: ScoreView<N>,
    id: PeerId,
    topic: Seq<char>,
) -> bool {
    &&& same_setting(before, after)
    &&& after.deliveries == before.deliveries
    &&& forall|p: PeerId| #[trigger]
        before.peers.contains_key(p) && p != id ==> after.peers[p] == before.peers[p]
    &&& differs_in_topic(before.peers[id], after.peers[id], topic)
}

/// `after` is one more than `before`, or `cap` where one more would be above it.
pub open spec fn counts_one_more<N: Number>(before: N, after: N, cap: N) -> bool {
    let more = before.plus_spec(N::of_count_spec(1));
    &&& cap.below_spec(more) ==> after == cap
    &&& !cap.below_spec(more) ==> after == more
}

/// `after` is what is left of `before` by `factor`, or nothing where less than `floor` is left.
pub open spec fn decays<N: Number>(before: N, after: N, factor: N, floor: N) -> bool {
    let left = before.times_spec(factor);
    &&& left.below_spec(floor) ==> after == N::of_count_spec(0)
    &&& !left.below_spec(floor) ==> after == left
}

/// A peer is behind in the mesh deliveries that `threshold` asks for.
pub open spec fn behind<N: Number>(stats: TopicStats<N>, threshold: N) -> bool {
    stats.mesh_message_deliveries_active && stats.mesh_message_deliveries.below_spec(threshold)
}

/// The mesh failures of `after` are those of `before`, and where `fails` the square of what is
/// missing to `threshold` on top.
pub open spec fn mesh_failure_sticks<N: Number>(
    before: TopicStats<N>,
    after: TopicStats<N>,
    threshold: N,
    fails: bool,
) -> bool {
    let missing = threshold.minus_spec(before.mesh_message_deliveries);
    &&& fails ==> after.mesh_failure_penalty == before.mesh_failure_penalty.plus_spec(
        missing.times_spec(missing),
    )
    &&& !fails ==> after.mesh_failure_penalty == before.mesh_failure_penalty
}

/// Before anything has happened no peer, no address and no message is known.
pub proof fn nothing_is_known_at_first<N: Number>(
    params: ParamsView<N>,
    thresholds: PeerScoreThresholds<N>,
    reports: bool,
)
    ensures
        ({
            let s = ScoreView::fresh(params, thresholds, reports);
            &&& s.params == params
            &&& s.thresholds == thresholds
            &&& s.reports_delivery_times == reports
            &&& forall|id: PeerId| !s.peers.contains_key(id)
            &&& forall|ip: IpAddr| !s.ips.contains_key(ip)
            &&& forall|m: Seq<u8>| !s.deliveries.contains_key(m)
        }),
{
}

/// A peer that connects is connected; whatever was counted of it stays, and of a new peer nothing
/// is counted. Nobody else notices.
pub proof fn connecting_keeps_what_was_counted<N: Number>(s: ScoreView<N>, id: PeerId)
    ensures
        ({
            let after = s.peer_added(id);
            let next = after.peers[id];
            let was = s.peers[id];
            &&& after.params == s.params
            &&& after.thresholds == s.thresholds
            &&& after.ips == s.ips
            &&& after.deliveries == s.deliveries
            &&& after.reports_delivery_times == s.reports_delivery_times
            &&& after.peers.dom() == s.peers.dom().insert(id)
            &&& forall|p: PeerId| #[trigger]
                s.peers.contains_key(p) && p != id ==> after.peers[p] == s.peers[p]
            &&& next.status == ConnectionStatus::Connected
            &&& s.peers.contains_key(id) ==> {
                &&& next.topics == was.topics
                &&& next.topic_order == was.topic_order
                &&& next.known_ips == was.known_ips
                &&& next.behaviour_penalty == was.behaviour_penalty
                &&& next.application_score == was.application_score
                &&& next.slow_peer_penalty == was.slow_peer_penalty
            }
            &&& !s.peers.contains_key(id) ==> {
                &&& forall|t: Seq<char>| !next.topics.contains_key(t)
                &&& next.topic_order.len() == 0
                &&& next.known_ips.len() == 0
                &&& next.behaviour_penalty == N::of_count_spec(0)
                &&& next.application_score == N::of_count_spec(0)
                &&& next.slow_peer_penalty == N::of_count_spec(0)
            }
        }),
{
}

/// A peer that connects from an address is connected and listed behind it, and the address is known
/// of it, once. Apart from that it is as if the peer had connected, and nobody else notices.
pub proof fn connecting_from_an_address<N: Number>(s: ScoreView<N>, id: PeerId, ip: IpAddr)
    ensures
        ({
            let after = s.ip_added(id, ip);
            let plain = s.peer_added(id);
            let known = plain.peers[id].known_ips;
            &&& after.params == s.params
            &&& after.thresholds == s.thresholds
            &&& after.deliveries == s.deliveries
            &&& after.reports_delivery_times == s.reports_delivery_times
            &&& after.peers.dom() == plain.peers.dom()
            &&& forall|p: PeerId| #[trigger]
                s.peers.contains_key(p) && p != id ==> after.peers[p] == s.peers[p]
            &&& after.peers[id].status == ConnectionStatus::Connected
            &&& after.peers[id].topics == plain.peers[id].topics
            &&& after.peers[id].topic_order == plain.peers[id].topic_order
            &&& after.peers[id].behaviour_penalty == plain.peers[id].behaviour_penalty
            &&& after.peers[id].application_score == plain.peers[id].application_score
            &&& after.peers[id].slow_peer_penalty == plain.peers[id].slow_peer_penalty
            &&& known.contains(ip) ==> after.peers[id].known_ips == known
            &&& !known.contains(ip) ==> after.peers[id].known_ips == known.push(ip)
            &&& after.ips.dom() == s.ips.dom().insert(ip)
            &&& forall|i: IpAddr| #[trigger]
                s.ips.contains_key(i) && i != ip ==> after.ips[i] == s.ips[i]
            &&& forall|p: PeerId| #[trigger]
                after.ips[ip].contains(p) <==> p == id || (s.ips.contains_key(ip)
                    && s.ips[ip].contains(p))
        }),
{
}

/// A peer that gives up an address is no longer behind it, and the address is no longer known of
/// it; its other addresses stay, in their order, and nobody else notices. An unknown peer has none
/// to give up.
pub proof fn giving_up_an_address<N: Number>(s: ScoreView<N>, id: PeerId, ip: IpAddr)
    requires
        s.inv(),
    ensures
        ({
            let after = s.ip_removed(id, ip);
            let next = after.peers[id];
            let was = s.peers[id];
            &&& !s.peers.contains_key(id) ==> after == s
            &&& s.peers.contains_key(id) ==> {
                &&& after.params == s.params
                &&& after.thresholds == s.thresholds
                &&& after.deliveries == s.deliveries
                &&& after.reports_delivery_times == s.reports_delivery_times
                &&& after.peers.dom() == s.peers.dom()
                &&& forall|p: PeerId| #[trigger]
                    s.peers.contains_key(p) && p != id ==> after.peers[p] == s.peers[p]
                &&& next.status == was.status
                &&& next.topics == was.topics
                &&& next.topic_order == was.topic_order
                &&& next.behaviour_penalty == was.behaviour_penalty
                &&& next.application_score == was.application_score
                &&& next.slow_peer_penalty == was.slow_peer_penalty
                &&& next.known_ips == was.known_ips.filter(|i: IpAddr| i != ip)
                &&& after.ips.dom() == s.ips.dom()
                &&& forall|i: IpAddr| #[trigger]
                    s.ips.contains_key(i) && i != ip ==> after.ips[i] == s.ips[i]
                &&& s.ips.contains_key(ip) ==> forall|p: PeerId| #[trigger]
                    after.ips[ip].contains(p) <==> s.ips[ip].contains(p) && p != id
            }
        }),
{
    if s.peers.contains_key(id) {
        let known = s.peers[id].known_ips;
        others_stay(known, ip, |i: IpAddr| i != ip);
        assert(s.ip_removed(id, ip).peers.dom() =~= s.peers.dom());
        assert(s.ip_removed(id, ip).ips.dom() =~= s.ips.dom());
    }
}

/// Taking one key out of a walk leaves the others, in their order.
proof fn others_stay<I>(keys: Seq<I>, id: I, other: spec_fn(I) -> bool)
    requires
        keys.no_duplicates(),
        forall|k: I| #[trigger] other(k) == (k != id),
    ensures
        without_key(keys, id) == keys.filter(other),
    decreases keys.len(),
{
    reveal(Seq::filter);
    let rest = keys.filter(other);
    if keys.len() > 0 {
        let front = keys.drop_last();
        others_stay(front, id, other);
        if keys.last() == id {
            if front.contains(id) {
                let i = front.index_of(id);
                assert(keys[i] == keys[keys.len() - 1]);
            }
            assert(keys[keys.len() - 1] == id);
            let i = keys.index_of(id);
            assert(keys[i] == id);
            assert(without_key(keys, id) =~= front);
        } else if front.contains(id) {
            let i = front.index_of(id);
            assert(keys[i] == id);
            let j = keys.index_of(id);
            assert(keys[j] == id);
            assert(without_key(keys, id) =~= without_key(
                front,
                id,
            ).push(keys.last()));
        } else {
            if keys.contains(id) {
                let j = keys.index_of(id);
                assert(front[j] == id);
            }
            assert(keys =~= front.push(keys.last()));
        }
    } else {
        assert(rest =~= keys);
    }
}

/// Misbehaviour adds its count to the misbehaviour of a known peer, and changes nothing else.
pub proof fn misbehaviour_is_added<N: Number>(s: ScoreView<N>, id: PeerId, count: usize)
    ensures
        ({
            let after = s.penalty_added(id, count);
            &&& !s.peers.contains_key(id) ==> after == s
            &&& s.peers.contains_key(id) ==> {
                &&& same_setting(s, after)
                &&& after.deliveries == s.deliveries
                &&& forall|p: PeerId| #[trigger]
                    s.peers.contains_key(p) && p != id ==> after.peers[p] == s.peers[p]
                &&& after.peers[id].behaviour_penalty == s.peers[id].behaviour_penalty.plus_spec(
                    N::of_count_spec(count),
                )
                &&& after.peers[id] == (PeerView {
                    behaviour_penalty: after.peers[id].behaviour_penalty,
                    ..s.peers[id]
                })
            }
        }),
{
    assert(s.penalty_added(id, count).peers.dom() =~= s.peers.dom());
}

/// Each message that a known peer is too slow for adds one to its slowness, and changes nothing
/// else.
pub proof fn slowness_is_added<N: Number>(s: ScoreView<N>, id: PeerId)
    ensures
        ({
            let after = s.slowness_noted(id);
            &&& !s.peers.contains_key(id) ==> after == s
            &&& s.peers.contains_key(id) ==> {
                &&& same_setting(s, after)
                &&& after.deliveries == s.deliveries
                &&& forall|p: PeerId| #[trigger]
                    s.peers.contains_key(p) && p != id ==> after.peers[p] == s.peers[p]
                &&& after.peers[id].slow_peer_penalty == s.peers[id].slow_peer_penalty.plus_spec(
                    N::of_count_spec(1),
                )
                &&& after.peers[id] == (PeerView {
                    slow_peer_penalty: after.peers[id].slow_peer_penalty,
                    ..s.peers[id]
                })
            }
        }),
{
    assert(s.slowness_noted(id).peers.dom() =~= s.peers.dom());
}

/// The score that the application assigns takes the place of the one before, whatever that was, and
/// changes nothing else. It is assigned to a peer that is connected, and to one that has left as
/// long as its time is not up.
pub proof fn application_score_is_replaced<N: Number>(
    s: ScoreView<N>,
    id: PeerId,
    first: N,
    score: N,
    now: Moment,
)
    ensures
        s.holds_score(id, now) <==> s.peers.contains_key(id) && (s.peers[id].status
            == ConnectionStatus::Connected || exists|expire: Moment|
            s.peers[id].status == (ConnectionStatus::Disconnected { expire }) && now.nanos
                <= expire.nanos),
        s.application_score_set(id, first).application_score_set(id, score)
            == s.application_score_set(id, score),
        s.peers.contains_key(id) ==> ({
            let after = s.application_score_set(id, score);
            &&& same_setting(s, after)
            &&& after.deliveries == s.deliveries
            &&& forall|p: PeerId| #[trigger]
                s.peers.contains_key(p) && p != id ==> after.peers[p] == s.peers[p]
            &&& after.peers[id].application_score == score
            &&& after.peers[id] == (PeerView { application_score: score, ..s.peers[id] })
        }),
{
    if s.peers.contains_key(id) {
        assert(s.application_score_set(id, score).peers.dom() =~= s.peers.dom());
        assert(s.application_score_set(id, first).application_score_set(id, score).peers
            =~= s.application_score_set(id, score).peers);
        if let ConnectionStatus::Disconnected { expire } = s.peers[id].status {
            assert(s.peers[id].status == (ConnectionStatus::Disconnected { expire }));
        }
    }
}

/// A peer that is grafted is in the mesh from `now` on: its time there starts anew, and a deficit
/// does not count yet. Its counters stay as they are, and nothing else changes.
pub proof fn grafting_starts_the_time_in_the_mesh<N: Number>(
    s: ScoreView<N>,
    id: PeerId,
    topic: Seq<char>,
    now: Moment,
)
    requires
        s.inv(),
    ensures
        !(s.peers.contains_key(id) && s.params.topics.contains_key(topic)) ==> s.grafted(
            id,
            topic,
            now,
        ) == s,
        s.peers.contains_key(id) && s.params.topics.contains_key(topic) ==> ({
            let after = s.grafted(id, topic, now);
            let was = counted(s.peers[id], topic);
            let next = after.peers[id].topics[topic];
            &&& differs_in_counters(s, after, id, topic)
            &&& next.mesh_status == (MeshStatus::Active {
                graft_time: now,
                mesh_time: Duration { nanos: 0 },
            })
            &&& !next.mesh_message_deliveries_active
            &&& next.first_message_deliveries == was.first_message_deliveries
            &&& next.mesh_message_deliveries == was.mesh_message_deliveries
            &&& next.mesh_failure_penalty == was.mesh_failure_penalty
            &&& next.invalid_message_deliveries == was.invalid_message_deliveries
        }),
{
    touched_differs(s, id, topic, |t: TopicStats<N>| t.grafted(now));
}

/// What `ScoreView::touched` leaves alone.
proof fn touched_differs<N: Number>(
    s: ScoreView<N>,
    id: PeerId,
    topic: Seq<char>,
    f: spec_fn(TopicStats<N>) -> TopicStats<N>,
)
    requires
        s.inv(),
    ensures
        !(s.peers.contains_key(id) && s.params.topics.contains_key(topic)) ==> s.touched(
            id,
            topic,
            f,
        ) == s,
        s.peers.contains_key(id) && s.params.topics.contains_key(topic) ==> differs_in_counters(
            s,
            s.touched(id, topic, f),
            id,
            topic,
        ) && s.touched(id, topic, f).peers[id].topics[topic] == f(counted(s.peers[id], topic)),
{
    let after = s.touched(id, topic, f);
    if s.peers.contains_key(id) {
        peer_touched_differs(s, id, topic, f);
        assert(after.peers.dom() =~= s.peers.dom());
        if !s.params.topics.contains_key(topic) {
            assert(after.peers =~= s.peers);
        }
    }
}

/// What `PeerView::touched` leaves alone.
proof fn peer_touched_differs<N: Number>(
    s: ScoreView<N>,
    id: PeerId,
    topic: Seq<char>,
    f: spec_fn(TopicStats<N>) -> TopicStats<N>,
)
    requires
        s.inv(),
        s.peers.contains_key(id),
    ensures
        ({
            let was = s.peers[id];
            let scored = s.params.topics.contains_key(topic);
            let next = was.touched(topic, scored, f);
            &&& !scored ==> next == was
            &&& scored ==> differs_in_topic(was, next, topic) && next.topics[topic] == f(
                counted(was, topic),
            )
        }),
{
    let was = s.peers[id];
    let next = was.touched(topic, s.params.topics.contains_key(topic), f);
    assert(was.topic_order.to_set().contains(topic) == was.topic_order.contains(topic));
    if was.topics.contains_key(topic) {
        assert(s.params.topics.contains_key(topic));
    }
    if s.params.topics.contains_key(topic) {
        assert(next.topics.dom() =~= was.topics.dom().insert(topic));
    }
}

/// A peer that is pruned is out of the mesh. If it was behind in its deliveries, exactly the square
/// of what was missing sticks to it as a mesh failure. Its other counters stay as they are, and
/// nothing else changes.
pub proof fn pruning_leaves_a_failure<N: Number>(s: ScoreView<N>, id: PeerId, topic: Seq<char>)
    requires
        s.inv(),
    ensures
        !(s.peers.contains_key(id) && s.params.topics.contains_key(topic)) ==> s.pruned(id, topic)
            == s,
        s.peers.contains_key(id) && s.params.topics.contains_key(topic) ==> ({
            let after = s.pruned(id, topic);
            let was = counted(s.peers[id], topic);
            let next = after.peers[id].topics[topic];
            let threshold = s.params.topics[topic].mesh_message_deliveries_threshold;
            &&& differs_in_counters(s, after, id, topic)
            &&& next.mesh_status == MeshStatus::InActive
            &&& !next.mesh_message_deliveries_active
            &&& mesh_failure_sticks(was, next, threshold, behind(was, threshold))
            &&& next.first_message_deliveries == was.first_message_deliveries
            &&& next.mesh_message_deliveries == was.mesh_message_deliveries
            &&& next.invalid_message_deliveries == was.invalid_message_deliveries
        }),
{
    let threshold = s.params.topics[topic].mesh_message_deliveries_threshold;
    touched_differs(s, id, topic, |t: TopicStats<N>| t.pruned(threshold));
}

/// Whoever is pruned from a mesh twice fails once: the second time nothing changes.
pub proof fn pruning_twice_is_pruning_once<N: Number>(s: ScoreView<N>, id: PeerId, topic: Seq<char>)
    requires
        s.inv(),
    ensures
        s.pruned(id, topic).pruned(id, topic) == s.pruned(id, topic),
{
    let once = s.pruned(id, topic);
    let threshold = s.params.topics[topic].mesh_message_deliveries_threshold;
    touched_differs(s, id, topic, |t: TopicStats<N>| t.pruned(threshold));
    touched_keeps(s, id, topic, |t: TopicStats<N>| t.pruned(threshold));
    touched_differs(once, id, topic, |t: TopicStats<N>| t.pruned(threshold));
    let twice = once.pruned(id, topic);
    if s.peers.contains_key(id) && s.params.topics.contains_key(topic) {
        assert(once.peers[id].topics.contains_key(topic));
        assert(twice.peers[id].topics =~= once.peers[id].topics);
        assert(twice.peers[id] =~= once.peers[id]);
        assert(twice.peers =~= once.peers);
    }
}

/// An invalid message is one more invalid message of the known peer that sent it, in a scored
/// topic, and changes nothing else.
pub proof fn invalid_message_is_counted<N: Number>(s: ScoreView<N>, id: PeerId, topic: Seq<char>)
    requires
        s.inv(),
    ensures
        !(s.peers.contains_key(id) && s.params.topics.contains_key(topic)) ==> s.invalid_delivered(
            id,
            topic,
        ) == s,
        s.peers.contains_key(id) && s.params.topics.contains_key(topic) ==> ({
            let after = s.invalid_delivered(id, topic);
            &&& differs_in_counters(s, after, id, topic)
            &&& blamed_once(counted(s.peers[id], topic), after.peers[id].topics[topic])
        }),
{
    touched_differs(s, id, topic, |t: TopicStats<N>| t.invalid_delivered());
}

/// `after` has one more invalid message than `before`, and is otherwise the same.
pub open spec fn blamed_once<N: Number>(before: TopicStats<N>, after: TopicStats<N>) -> bool {
    &&& after.invalid_message_deliveries == before.invalid_message_deliveries.plus_spec(
        N::of_count_spec(1),
    )
    &&& after.mesh_status == before.mesh_status
    &&& after.mesh_message_deliveries_active == before.mesh_message_deliveries_active
    &&& after.first_message_deliveries == before.first_message_deliveries
    &&& after.mesh_message_deliveries == before.mesh_message_deliveries
    &&& after.mesh_failure_penalty == before.mesh_failure_penalty
}

/// `after` has one more delivery from the mesh than `before` if the peer is in the mesh and
/// `counts`, up to the cap, and is otherwise the same.
pub open spec fn mesh_delivery_counted<N: Number>(
    before: TopicStats<N>,
    after: TopicStats<N>,
    params: TopicScoreParams<N>,
    counts: bool,
) -> bool {
    &&& counts && before.mesh_status is Active ==> counts_one_more(
        before.mesh_message_deliveries,
        after.mesh_message_deliveries,
        params.mesh_message_deliveries_cap,
    )
    &&& !(counts && before.mesh_status is Active) ==> after.mesh_message_deliveries
        == before.mesh_message_deliveries
    &&& after.mesh_status == before.mesh_status
    &&& after.mesh_message_deliveries_active == before.mesh_message_deliveries_active
    &&& after.first_message_deliveries == before.first_message_deliveries
    &&& after.mesh_failure_penalty == before.mesh_failure_penalty
    &&& after.invalid_message_deliveries == before.invalid_message_deliveries
}

/// A first delivery is one more first delivery, up to the cap. It is one more delivery from the
/// mesh, up to that cap, for a peer in the mesh, and leaves the mesh deliveries of any other peer as
/// they were.
pub proof fn first_delivery_counts<N: Number>(stats: TopicStats<N>, params: TopicScoreParams<N>)
    ensures
        ({
            let next = stats.first_delivered(params);
            &&& counts_one_more(
                stats.first_message_deliveries,
                next.first_message_deliveries,
                params.first_message_deliveries_cap,
            )
            &&& stats.mesh_status is Active ==> counts_one_more(
                stats.mesh_message_deliveries,
                next.mesh_message_deliveries,
                params.mesh_message_deliveries_cap,
            )
            &&& stats.mesh_status is InActive ==> next.mesh_message_deliveries
                == stats.mesh_message_deliveries
            &&& next.mesh_status == stats.mesh_status
            &&& next.mesh_message_deliveries_active == stats.mesh_message_deliveries_active
            &&& next.mesh_failure_penalty == stats.mesh_failure_penalty
            &&& next.invalid_message_deliveries == stats.invalid_message_deliveries
        }),
{
}

/// There is a record of `message` whose time is not up at `now`.
pub open spec fn remembered<N: Number>(s: ScoreView<N>, message: Seq<u8>, now: Moment) -> bool {
    s.deliveries.contains_key(message) && now.nanos < s.deliveries[message].expires.nanos
}

/// What is remembered of `message` at `now`: a message without a record is of unknown validity, is
/// first heard of now, and nobody has sent it again.
pub open spec fn memory<N: Number>(s: ScoreView<N>, message: Seq<u8>, now: Moment) -> RecordView {
    if remembered(s, message, now) {
        s.deliveries[message].value
    } else {
        RecordView { status: DeliveryStatus::Unknown, first_seen: now, peers: Set::empty() }
    }
}

/// From `before` to `after`, what is remembered of `message` has become `record`. It lasts for as
/// long as it did, or for two minutes from `now` on where it is new. Other records are what they
/// were, and gone where their time is up.
pub open spec fn remembers<N: Number>(
    before: ScoreView<N>,
    after: ScoreView<N>,
    message: Seq<u8>,
    record: RecordView,
    now: Moment,
) -> bool {
    &&& after.deliveries.contains_key(message)
    &&& after.deliveries[message].value == record
    &&& remembered(before, message, now) ==> after.deliveries[message].expires
        == before.deliveries[message].expires
    &&& !remembered(before, message, now) ==> after.deliveries[message].expires.nanos == now.nanos
        + 120 * 1_000_000_000
    &&& forall|m: Seq<u8>|
        m != message ==> (#[trigger] after.deliveries.contains_key(m) <==> remembered(
            before,
            m,
            now,
        ))
    &&& forall|m: Seq<u8>|
        m != message && #[trigger] after.deliveries.contains_key(m) ==> after.deliveries[m]
            == before.deliveries[m]
}

/// The validation of a message makes it remembered, and changes nothing that is counted.
pub proof fn validation_is_remembered<N: Number>(
    s: ScoreView<N>,
    message: Seq<u8>,
    now: Moment,
)
    requires
        now.nanos + 120 * 1_000_000_000 <= u128::MAX,
    ensures
        remembers(s, s.validating(message, now), message, memory(s, message, now), now),
        same_setting(s, s.validating(message, now)),
        s.validating(message, now).peers == s.peers,
{
}

/// A message that is found valid is one more first delivery of `from`, which counts in the mesh if
/// `from` is there. If nothing was known of its validity before, it is valid from now on, and is a
/// mesh delivery of each other peer in the mesh that has sent it before. Nothing else is counted,
/// and nothing at all in a topic that is not scored.
pub proof fn delivery_rewards_its_senders<N: Number>(
    s: ScoreView<N>,
    from: PeerId,
    message: Seq<u8>,
    topic: Seq<char>,
    now: Moment,
    id: PeerId,
)
    requires
        s.inv(),
        now.nanos + 120 * 1_000_000_000 <= u128::MAX,
    ensures
        ({
            let after = s.delivered(from, message, topic, now);
            let record = memory(s, message, now);
            let known = s.peers.contains_key(id);
            let scored = s.params.topics.contains_key(topic);
            let params = s.params.topics[topic];
            let was = counted(s.peers[id], topic);
            let next = after.peers[id].topics[topic];
            let sender = record.status is Unknown && record.peers.contains(id);
            &&& same_setting(s, after)
            &&& remembers(
                s,
                after,
                message,
                RecordView {
                    status: if record.status is Unknown {
                        DeliveryStatus::Valid(now)
                    } else {
                        record.status
                    },
                    first_seen: record.first_seen,
                    peers: record.peers,
                },
                now,
            )
            &&& known && !scored ==> after.peers[id] == s.peers[id]
            &&& known && scored && id == from ==> {
                &&& differs_in_topic(s.peers[id], after.peers[id], topic)
                &&& counts_one_more(
                    was.first_message_deliveries,
                    next.first_message_deliveries,
                    params.first_message_deliveries_cap,
                )
                &&& mesh_delivery_counted(
                    TopicStats { first_message_deliveries: next.first_message_deliveries, ..was },
                    next,
                    params,
                    true,
                )
            }
            &&& known && scored && id != from && sender ==> {
                &&& differs_in_topic(s.peers[id], after.peers[id], topic)
                &&& mesh_delivery_counted(was, next, params, true)
            }
            &&& known && id != from && !sender ==> after.peers[id] == s.peers[id]
        }),
{
    let after = s.delivered(from, message, topic, now);
    let params = s.params.topics[topic];
    let first = |t: TopicStats<N>| t.first_delivered(params);
    let mesh = |t: TopicStats<N>| t.mesh_delivered(params);
    assert(s.record(message, now) == memory(s, message, now));
    assert(after.peers.dom() =~= s.peers.dom());
    if s.peers.contains_key(id) {
        peer_touched_differs(s, id, topic, first);
        peer_touched_differs(s, id, topic, mesh);
        first_delivery_counts(counted(s.peers[id], topic), params);
    }
}

/// A message that is rejected before or by decoding is one more invalid message of its sender, and
/// nothing is remembered of it; one from a blacklist changes nothing.
pub proof fn undecodable_messages_are_not_remembered<N: Number>(
    s: ScoreView<N>,
    from: PeerId,
    message: Seq<u8>,
    topic: Seq<char>,
    reason: RejectReason,
    now: Moment,
)
    ensures
        reason is ValidationError || reason is SelfOrigin ==> s.rejected(
            from,
            message,
            topic,
            reason,
            now,
        ) == s.invalid_delivered(from, topic),
        reason is BlackListedPeer || reason is BlackListedSource ==> s.rejected(
            from,
            message,
            topic,
            reason,
            now,
        ) == s,
{
}

/// What validation says of a message settles it, unless it was settled before: then nothing
/// changes. A message that is to be ignored is nobody's fault. One that failed is one more invalid
/// message of `from`, and one more of each peer that has sent it before. In either case nobody is
/// remembered to have sent it.
pub proof fn rejection_blames_its_senders<N: Number>(
    s: ScoreView<N>,
    from: PeerId,
    message: Seq<u8>,
    topic: Seq<char>,
    reason: RejectReason,
    now: Moment,
    id: PeerId,
)
    requires
        s.inv(),
        reason is ValidationIgnored || reason is ValidationFailed,
        now.nanos + 120 * 1_000_000_000 <= u128::MAX,
    ensures
        ({
            let after = s.rejected(from, message, topic, reason, now);
            let record = memory(s, message, now);
            let settles = record.status is Unknown;
            let scored = s.params.topics.contains_key(topic);
            let known = s.peers.contains_key(id);
            let blames = known && settles && reason is ValidationFailed && scored;
            let sender = record.peers.contains(id);
            let was = counted(s.peers[id], topic);
            let next = after.peers[id].topics[topic];
            &&& same_setting(s, after)
            &&& remembers(
                s,
                after,
                message,
                if !settles {
                    record
                } else {
                    RecordView {
                        status: if reason is ValidationFailed {
                            DeliveryStatus::Invalid
                        } else {
                            DeliveryStatus::Ignored
                        },
                        first_seen: record.first_seen,
                        peers: Set::empty(),
                    }
                },
                now,
            )
            &&& known && (!blames || (id != from && !sender)) ==> after.peers[id] == s.peers[id]
            &&& blames && (id == from || sender) ==> differs_in_topic(
                s.peers[id],
                after.peers[id],
                topic,
            )
            &&& blames && (id == from) != sender ==> blamed_once(was, next)
            &&& blames && id == from && sender ==> exists|once: TopicStats<N>|
                blamed_once(was, once) && #[trigger] blamed_once(once, next)
        }),
{
    let after = s.rejected(from, message, topic, reason, now);
    let record = memory(s, message, now);
    let invalid = |t: TopicStats<N>| t.invalid_delivered();
    assert(s.record(message, now) == record);
    assert(after.peers.dom() =~= s.peers.dom());
    if s.peers.contains_key(id) {
        peer_touched_differs(s, id, topic, invalid);
    }
    if s.peers.contains_key(id) && record.status is Unknown && reason is ValidationFailed
        && s.params.topics.contains_key(topic) && id == from && record.peers.contains(id) {
        let once = counted(s.peers[id], topic).invalid_delivered();
        assert(blamed_once(counted(s.peers[id], topic), once));
        let mid = s.peers[id].touched(topic, true, invalid);
        assert(mid.topic_order.contains(topic)) by {
            if !s.peers[id].topic_order.contains(topic) {
                assert(mid.topic_order[mid.topic_order.len() - 1] == topic);
            }
        }
        assert(after.peers[id] == mid.touched(topic, true, invalid));
        assert(blamed_once(once, after.peers[id].topics[topic]));
        assert(after.peers[id].topics.dom() =~= s.peers[id].topics.dom().insert(topic));
    }
}

/// What a duplicate counts for, and what is remembered of it. Of a message whose validity is not
/// known the sender is remembered, and nothing is counted yet. Of a valid message the sender is
/// remembered too, and in the mesh it is one more delivery, if it came no later than the window of
/// the topic after the validation, whenever the message was first heard of. An invalid message is
/// one more invalid message of its sender, and an ignored one is nothing. From a peer that is
/// remembered to have sent the message, nothing counts.
pub proof fn duplicate_counts_by_its_outcome<N: Number>(
    s: ScoreView<N>,
    from: PeerId,
    message: Seq<u8>,
    topic: Seq<char>,
    now: Moment,
)
    requires
        s.inv(),
        now.nanos + 120 * 1_000_000_000 <= u128::MAX,
    ensures
        ({
            let after = s.duplicated(from, message, topic, now);
            let record = memory(s, message, now);
            let again = record.peers.contains(from);
            let noted = RecordView {
                status: record.status,
                first_seen: record.first_seen,
                peers: record.peers.insert(from),
            };
            let known = s.peers.contains_key(from);
            let scored = known && s.params.topics.contains_key(topic);
            let params = s.params.topics[topic];
            let was = counted(s.peers[from], topic);
            let next = after.peers[from].topics[topic];
            let differs = differs_in_topic(s.peers[from], after.peers[from], topic);
            let same = known ==> after.peers[from] == s.peers[from];
            &&& same_setting(s, after)
            &&& forall|p: PeerId| #[trigger]
                s.peers.contains_key(p) && p != from ==> after.peers[p] == s.peers[p]
            &&& again || !scored ==> same
            &&& again ==> remembers(s, after, message, record, now)
            &&& !again ==> match record.status {
                DeliveryStatus::Unknown => same && remembers(s, after, message, noted, now),
                DeliveryStatus::Valid(at) => {
                    let window = params.mesh_message_deliveries_window;
                    let in_time = at.nanos + window.nanos > u128::MAX || now.nanos <= at.nanos
                        + window.nanos;
                    &&& remembers(s, after, message, noted, now)
                    &&& scored ==> differs && mesh_delivery_counted(was, next, params, in_time)
                },
                DeliveryStatus::Invalid => {
                    &&& remembers(s, after, message, record, now)
                    &&& scored ==> differs && blamed_once(was, next)
                },
                DeliveryStatus::Ignored => same && remembers(s, after, message, record, now),
            }
        }),
{
    let after = s.duplicated(from, message, topic, now);
    let record = memory(s, message, now);
    let params = s.params.topics[topic];
    assert(s.record(message, now) == record);
    assert(after.peers.dom() =~= s.peers.dom());
    if s.peers.contains_key(from) {
        peer_touched_differs(s, from, topic, |t: TopicStats<N>| t.invalid_delivered());
        if let DeliveryStatus::Valid(at) = record.status {
            let counts = s.duplicate_counts(topic, Some(at), now);
            peer_touched_differs(
                s,
                from,
                topic,
                |t: TopicStats<N>|
                    if counts {
                        t.mesh_delivered(params)
                    } else {
                        t
                    },
            );
        }
    }
    assert(s.with_record(message, record, now).peers =~= s.peers);
}

/// A duplicate is nothing to any peer but its sender, and an unknown sender is not counted.
pub proof fn duplicate_of_an_unknown_peer_counts_for_nothing<N: Number>(
    s: ScoreView<N>,
    from: PeerId,
    message: Seq<u8>,
    topic: Seq<char>,
    now: Moment,
)
    requires
        !s.peers.contains_key(from),
    ensures
        s.duplicated(from, message, topic, now).peers == s.peers,
        s.duplicated(from, message, topic, now).ips == s.ips,
{
}

/// Delivery times are reported where somebody wants to hear of them, of known peers in the mesh of
/// the topic: none has passed where validation begins, and at a duplicate the time since the
/// message was found valid, if it was. A duplicate that was reported is not reported again.
pub proof fn delivery_times_are_those_of_mesh_peers<N: Number>(
    s: ScoreView<N>,
    from: PeerId,
    message: Seq<u8>,
    topic: Seq<char>,
    now: Moment,
)
    ensures
        ({
            let wanted = s.reports_delivery_times && s.peers.contains_key(from)
                && s.peers[from].topics.contains_key(topic)
                && s.peers[from].topics[topic].mesh_status is Active;
            let record = memory(s, message, now);
            &&& s.validation_report(from, topic) == if wanted {
                Some(N::of_count_spec(0))
            } else {
                None
            }
            &&& !wanted || record.peers.contains(from) ==> s.duplicate_report(
                from,
                message,
                topic,
                now,
            ) is None
            &&& wanted && !record.peers.contains(from) ==> match record.status {
                DeliveryStatus::Valid(at) => exists|span: Duration|
                    (at.nanos <= now.nanos ==> at.nanos + span.nanos == now.nanos) && (now.nanos
                        < at.nanos ==> span.nanos == 0) && s.duplicate_report(
                        from,
                        message,
                        topic,
                        now,
                    ) == Some(#[trigger] N::seconds_spec(span)),
                _ => s.duplicate_report(from, message, topic, now) == Some(N::of_count_spec(0)),
            }
        }),
{
    let record = memory(s, message, now);
    assert(s.record(message, now) == record);
    if let DeliveryStatus::Valid(at) = record.status {
        let span = now.since(at);
        assert(at.nanos <= now.nanos ==> at.nanos + span.nanos == now.nanos);
        let seconds = N::seconds_spec(span);
    }
}

/// A refresh throws away what is counted of a peer that has left, once its time is up, takes it off
/// the lists of its addresses, and leaves what is counted of others that have left as it is.
pub proof fn refresh_keeps_who_is_not_expired<N: Number>(s: ScoreView<N>, now: Moment, id: PeerId)
    requires
        s.inv(),
    ensures
        ({
            let after = s.refreshed(now);
            &&& after.params == s.params
            &&& after.thresholds == s.thresholds
            &&& after.deliveries == s.deliveries
            &&& after.reports_delivery_times == s.reports_delivery_times
            &&& after.peers.contains_key(id) <==> s.peers.contains_key(id) && match s.peers[id].status {
                ConnectionStatus::Connected => true,
                ConnectionStatus::Disconnected { expire } => now.nanos <= expire.nanos,
            }
            &&& after.peers.contains_key(id) && s.peers[id].status is Disconnected
                ==> after.peers[id] == s.peers[id]
            &&& forall|ip: IpAddr| #[trigger] after.ips.contains_key(ip) <==> s.ips.contains_key(ip)
            &&& forall|ip: IpAddr| #[trigger]
                s.ips.contains_key(ip) ==> (after.ips[ip].contains(id) <==> s.ips[ip].contains(id)
                    && after.peers.contains_key(id))
        }),
{
    assert forall|ip: IpAddr| #[trigger] s.ips.contains_key(ip) implies (s.refreshed(
        now,
    ).ips[ip].contains(id) <==> s.ips[ip].contains(id) && s.refreshed(now).peers.contains_key(
        id,
    )) by {
        assert(s.knows(id, ip) <==> s.lists(ip, id));
    }
}

/// A refresh lets each counter of a connected peer decay by its own factor. The time in the mesh of
/// a scored topic is the time since the graft, whatever it was before, and a deficit counts from
/// then on if that is more than the activation time. Nothing else of the peer changes, and nothing
/// in a topic that is not scored.
pub proof fn refresh_decays_connected_peers<N: Number>(
    s: ScoreView<N>,
    now: Moment,
    id: PeerId,
    topic: Seq<char>,
)
    requires
        s.peers.contains_key(id),
        s.peers[id].status == ConnectionStatus::Connected,
    ensures
        ({
            let after = s.refreshed(now).peers[id];
            let before = s.peers[id];
            let floor = s.params.decay_to_zero;
            let params = s.params.topics[topic];
            let was = before.topics[topic];
            let next = after.topics[topic];
            &&& s.refreshed(now).peers.contains_key(id)
            &&& after.status == before.status
            &&& after.known_ips == before.known_ips
            &&& after.topic_order == before.topic_order
            &&& after.application_score == before.application_score
            &&& decays(
                before.behaviour_penalty,
                after.behaviour_penalty,
                s.params.behaviour_penalty_decay,
                floor,
            )
            &&& decays(
                before.slow_peer_penalty,
                after.slow_peer_penalty,
                s.params.slow_peer_decay,
                floor,
            )
            &&& after.topics.contains_key(topic) <==> before.topics.contains_key(topic)
            &&& before.topics.contains_key(topic) && !s.params.topics.contains_key(topic) ==> next
                == was
            &&& before.topics.contains_key(topic) && s.params.topics.contains_key(topic) ==> {
                &&& decays(
                    was.first_message_deliveries,
                    next.first_message_deliveries,
                    params.first_message_deliveries_decay,
                    floor,
                )
                &&& decays(
                    was.mesh_message_deliveries,
                    next.mesh_message_deliveries,
                    params.mesh_message_deliveries_decay,
                    floor,
                )
                &&& decays(
                    was.mesh_failure_penalty,
                    next.mesh_failure_penalty,
                    params.mesh_failure_penalty_decay,
                    floor,
                )
                &&& decays(
                    was.invalid_message_deliveries,
                    next.invalid_message_deliveries,
                    params.invalid_message_deliveries_decay,
                    floor,
                )
                &&& mesh_time_is_current(was, next, params, now)
            }
        }),
{
    let after = s.refreshed(now).peers[id];
    assert(!s.peers[id].expired(now));
    assert(after.topics.contains_key(topic) <==> s.peers[id].topics.contains_key(topic));
}

/// The time in the mesh that `after` gives is the time since the graft, and a deficit counts as it
/// did before, or because that time is more than the activation time.
pub open spec fn mesh_time_is_current<N: Number>(
    before: TopicStats<N>,
    after: TopicStats<N>,
    params: TopicScoreParams<N>,
    now: Moment,
) -> bool {
    let activation = params.mesh_message_deliveries_activation.nanos;
    match before.mesh_status {
        MeshStatus::InActive => {
            &&& after.mesh_status == MeshStatus::InActive
            &&& after.mesh_message_deliveries_active == before.mesh_message_deliveries_active
        },
        MeshStatus::Active { graft_time: since, .. } => match after.mesh_status {
            MeshStatus::InActive => false,
            MeshStatus::Active { graft_time, mesh_time } => {
                &&& graft_time == since
                &&& since.nanos <= now.nanos ==> since.nanos + mesh_time.nanos == now.nanos
                &&& now.nanos < since.nanos ==> mesh_time.nanos == 0
                &&& after.mesh_message_deliveries_active == (before.mesh_message_deliveries_active
                    || mesh_time.nanos > activation)
            },
        },
    }
}

/// The time in the mesh does not add up over refreshes: after two of them it is what it is after
/// the second one alone.
pub proof fn mesh_time_is_that_of_the_last_refresh<N: Number>(
    s: ScoreView<N>,
    first: Moment,
    second: Moment,
    id: PeerId,
    topic: Seq<char>,
)
    requires
        s.peers.contains_key(id),
        s.peers[id].status == ConnectionStatus::Connected,
        s.peers[id].topics.contains_key(topic),
    ensures
        s.refreshed(first).refreshed(second).peers[id].topics[topic].mesh_status == s.refreshed(
            second,
        ).peers[id].topics[topic].mesh_status,
{
    assert(!s.peers[id].expired(first));
    assert(s.refreshed(first).peers[id].topics.contains_key(topic));
}

/// A peer that leaves with a positive score is forgotten, and is on no list of its addresses any
/// more. Nobody else notices.
pub proof fn leaving_with_a_positive_score<N: Number>(
    s: ScoreView<N>,
    id: PeerId,
    now: Moment,
)
    requires
        s.inv(),
        s.peers.contains_key(id),
        N::of_count_spec(0).below_spec(s.score(id)),
    ensures
        ({
            let after = s.peer_removed(id, now);
            &&& after.params == s.params
            &&& after.thresholds == s.thresholds
            &&& after.deliveries == s.deliveries
            &&& after.reports_delivery_times == s.reports_delivery_times
            &&& after.peers == s.peers.remove(id)
            &&& after.ips.dom() == s.ips.dom()
            &&& forall|ip: IpAddr, p: PeerId|
                s.ips.contains_key(ip) ==> (#[trigger] after.ips[ip].contains(p)
                    <==> s.ips[ip].contains(p) && p != id)
        }),
{
    let after = s.peer_removed(id, now);
    assert(after.ips.dom() =~= s.ips.dom());
    assert forall|ip: IpAddr, p: PeerId| s.ips.contains_key(ip) implies (
    #[trigger] after.ips[ip].contains(p) <==> s.ips[ip].contains(p) && p != id) by {
        assert(s.knows(id, ip) <==> s.lists(ip, id));
    }
}

/// A peer that leaves with any other score is out of all meshes, and has no first deliveries any
/// more. Where it was behind in a mesh, exactly the square of what was missing sticks to it as a mesh
/// failure. All else that is counted of it is kept until the retention period is over, and nobody
/// else notices.
pub proof fn leaving_with_any_other_score<N: Number>(
    s: ScoreView<N>,
    id: PeerId,
    now: Moment,
    topic: Seq<char>,
)
    requires
        s.inv(),
        s.peers.contains_key(id),
        !N::of_count_spec(0).below_spec(s.score(id)),
        now.nanos + s.params.retain_score.nanos <= u128::MAX,
    ensures
        ({
            let after = s.peer_removed(id, now);
            let was = s.peers[id].topics[topic];
            let next = after.peers[id].topics[topic];
            let threshold = s.params.topics[topic].mesh_message_deliveries_threshold;
            &&& same_setting(s, after)
            &&& after.deliveries == s.deliveries
            &&& forall|p: PeerId| #[trigger]
                s.peers.contains_key(p) && p != id ==> after.peers[p] == s.peers[p]
            &&& match after.peers[id].status {
                ConnectionStatus::Disconnected { expire } => expire.nanos == now.nanos
                    + s.params.retain_score.nanos,
                ConnectionStatus::Connected => false,
            }
            &&& after.peers[id].known_ips == s.peers[id].known_ips
            &&& after.peers[id].topic_order == s.peers[id].topic_order
            &&& after.peers[id].behaviour_penalty == s.peers[id].behaviour_penalty
            &&& after.peers[id].application_score == s.peers[id].application_score
            &&& after.peers[id].slow_peer_penalty == s.peers[id].slow_peer_penalty
            &&& after.peers[id].topics.contains_key(topic) <==> s.peers[id].topics.contains_key(
                topic,
            )
            &&& s.peers[id].topics.contains_key(topic) ==> {
                &&& next.mesh_status == MeshStatus::InActive
                &&& !next.mesh_message_deliveries_active
                &&& next.first_message_deliveries == N::of_count_spec(0)
                &&& mesh_failure_sticks(was, next, threshold, behind(was, threshold))
                &&& next.mesh_message_deliveries == was.mesh_message_deliveries
                &&& next.invalid_message_deliveries == was.invalid_message_deliveries
            }
        }),
{
    let after = s.peer_removed(id, now);
    assert(after.peers.dom() =~= s.peers.dom());
    if s.peers[id].topics.contains_key(topic) {
        assert(s.params.topics.contains_key(topic));
        assert(s.peers[id].topics[topic].inv());
    }
}

/// Leaving is nothing to a peer that is not known.
pub proof fn unknown_peers_cannot_leave<N: Number>(s: ScoreView<N>, id: PeerId, now: Moment)
    requires
        !s.peers.contains_key(id),
    ensures
        s.peer_removed(id, now) == s,
{
}

/// New parameters of a topic take the place of the old ones. Where a cap has come down, no counter
/// of any peer stays above it: such a counter becomes the cap. Every other counter stays as it is,
/// and so does everything else.
pub proof fn new_parameters_cut_counters_to_lower_caps<N: Number>(
    s: ScoreView<N>,
    topic: Seq<char>,
    params: TopicScoreParams<N>,
    id: PeerId,
)
    requires
        s.inv(),
    ensures
        ({
            let after = s.topic_params_set(topic, params);
            let before = s.params.topics[topic];
            let was = s.peers[id].topics[topic];
            let next = after.peers[id].topics[topic];
            let cut = |old_cap: N, cap: N, x: N|
                if cap.below_spec(old_cap) && cap.below_spec(x) {
                    cap
                } else {
                    x
                };
            &&& after.params == (ParamsView { topics: after.params.topics, ..s.params })
            &&& after.params.topics.dom() == s.params.topics.dom().insert(topic)
            &&& after.params.topics[topic] == params
            &&& forall|t: Seq<char>| #[trigger]
                s.params.topics.contains_key(t) && t != topic ==> after.params.topics[t]
                    == s.params.topics[t]
            &&& after.thresholds == s.thresholds
            &&& after.ips == s.ips
            &&& after.deliveries == s.deliveries
            &&& after.reports_delivery_times == s.reports_delivery_times
            &&& after.peers.dom() == s.peers.dom()
            &&& s.peers.contains_key(id) && !s.peers[id].topics.contains_key(topic)
                ==> after.peers[id] == s.peers[id]
            &&& s.peers.contains_key(id) && s.peers[id].topics.contains_key(topic) ==> {
                &&& differs_in_topic(s.peers[id], after.peers[id], topic)
                &&& next.first_message_deliveries == cut(
                    before.first_message_deliveries_cap,
                    params.first_message_deliveries_cap,
                    was.first_message_deliveries,
                )
                &&& next.mesh_message_deliveries == cut(
                    before.mesh_message_deliveries_cap,
                    params.mesh_message_deliveries_cap,
                    was.mesh_message_deliveries,
                )
                &&& next.mesh_status == was.mesh_status
                &&& next.mesh_message_deliveries_active == was.mesh_message_deliveries_active
                &&& next.mesh_failure_penalty == was.mesh_failure_penalty
                &&& next.invalid_message_deliveries == was.invalid_message_deliveries
            }
        }),
{
    let after = s.topic_params_set(topic, params);
    assert(after.peers.dom() =~= s.peers.dom());
    assert(after.params.topics.dom() =~= s.params.topics.dom().insert(topic));
    if s.peers.contains_key(id) && s.peers[id].topics.contains_key(topic) {
        let was = s.peers[id];
        assert(s.params.topics.contains_key(topic));
        assert(was.topic_order.to_set().contains(topic) == was.topic_order.contains(topic));
        assert(after.peers[id].topics.dom() =~= was.topics.dom().insert(topic));
    }
}

} // verus!
