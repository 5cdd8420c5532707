//! What the building blocks say: keys, parameters, counters, records and points in time.
use crate::delivery::{live, Cached, DeliveryRecord};
use crate::ids::{IpAddr, Key, MessageId, TopicHash};
use crate::model::ScoreView;
use crate::number::Number;
use crate::params::PeerScoreParams;
use crate::stats::{ConnectionStatus, MeshStatus, PeerStats, PeerView, TopicStats};
use crate::time::{Duration, Moment};
use libp2p_identity::PeerId;
use vstd::prelude::*;

verus! {

/// Topics are told apart by their hashes, messages by their bytes, and peers and addresses by
/// themselves.
pub proof fn keys_tell_things_apart(
    topics: (TopicHash, TopicHash),
    messages: (MessageId, MessageId),
    peers: (PeerId, PeerId),
    addresses: (IpAddr, IpAddr),
)
    ensures
        topics.0.id() == topics.1.id() <==> topics.0.hash@ == topics.1.hash@,
        topics.0@ == topics.0.hash@,
        messages.0.id() == messages.1.id() <==> messages.0.0@ == messages.1.0@,
        messages.0@ == messages.0.0@,
        peers.0.id() == peers.1.id() <==> peers.0 == peers.1,
        addresses.0.id() == addresses.1.id() <==> addresses.0 == addresses.1,
        forall|x: u32, y: u32| IpAddr::V4(x).id() == IpAddr::V4(y).id() ==> x == y,
        forall|x: u128, y: u128| IpAddr::V6(x).id() == IpAddr::V6(y).id() ==> x == y,
        forall|x: u32, y: u128| IpAddr::V4(x).id() != IpAddr::V6(y).id(),
{
}

/// Each parameter says what it is set to.
pub proof fn parameters_say_what_they_are_set_to<N: Number>(params: PeerScoreParams<N>)
    ensures
        params@.topics == params.topics@,
        params@.topic_score_cap == params.topic_score_cap,
        params@.app_specific_weight == params.app_specific_weight,
        params@.ip_colocation_factor_weight == params.ip_colocation_factor_weight,
        params@.ip_colocation_factor_threshold == params.ip_colocation_factor_threshold,
        forall|ip: IpAddr| #[trigger]
            params@.ip_colocation_factor_whitelist.contains(ip)
                <==> params.ip_colocation_factor_whitelist@.contains_key(ip),
        params@.behaviour_penalty_weight == params.behaviour_penalty_weight,
        params@.behaviour_penalty_threshold == params.behaviour_penalty_threshold,
        params@.behaviour_penalty_decay == params.behaviour_penalty_decay,
        params@.decay_interval == params.decay_interval,
        params@.decay_to_zero == params.decay_to_zero,
        params@.retain_score == params.retain_score,
        params@.slow_peer_weight == params.slow_peer_weight,
        params@.slow_peer_threshold == params.slow_peer_threshold,
        params@.slow_peer_decay == params.slow_peer_decay,
{
}

/// Each counter of a peer and each field of a record says what it holds.
pub proof fn counters_say_what_they_hold<N: Number>(stats: PeerStats<N>, record: DeliveryRecord)
    ensures
        stats@.status == stats.status,
        stats@.topics == stats.topics@,
        stats@.topic_order == stats.topics.keys(),
        stats@.known_ips == stats.known_ips.keys(),
        stats@.behaviour_penalty == stats.behaviour_penalty,
        stats@.application_score == stats.application_score,
        stats@.slow_peer_penalty == stats.slow_peer_penalty,
        record@.status == record.status,
        record@.first_seen == record.first_seen,
        forall|p: PeerId| #[trigger]
            record@.peers.contains(p) <==> record.peers@.contains_key(p),
{
}

/// Nothing is counted at first: a new peer is connected, in no mesh, and every counter is zero.
pub proof fn counters_start_at_zero<N: Number>()
    ensures
        ({
            let stats = TopicStats::<N>::fresh();
            &&& stats.mesh_status == MeshStatus::InActive
            &&& stats.first_message_deliveries == N::of_count_spec(0)
            &&& !stats.mesh_message_deliveries_active
            &&& stats.mesh_message_deliveries == N::of_count_spec(0)
            &&& stats.mesh_failure_penalty == N::of_count_spec(0)
            &&& stats.invalid_message_deliveries == N::of_count_spec(0)
        }),
        ({
            let peer = PeerView::<N>::fresh();
            &&& peer.status == ConnectionStatus::Connected
            &&& forall|t: Seq<char>| !peer.topics.contains_key(t)
            &&& peer.topic_order.len() == 0
            &&& peer.known_ips.len() == 0
            &&& peer.behaviour_penalty == N::of_count_spec(0)
            &&& peer.application_score == N::of_count_spec(0)
            &&& peer.slow_peer_penalty == N::of_count_spec(0)
        }),
{
}

/// Counters that are put into a topic are found there, and the other topics keep theirs; a topic
/// without counters has those that start at zero.
pub proof fn counters_are_found_where_they_are_put<N: Number>(
    peer: PeerView<N>,
    topic: Seq<char>,
    stats: TopicStats<N>,
    other: Seq<char>,
)
    ensures
        peer.with_topic(topic, stats).topic_stats(topic) == stats,
        other != topic ==> peer.with_topic(topic, stats).topic_stats(other) == peer.topic_stats(
            other,
        ),
        peer.with_topic(topic, stats).topics.contains_key(other) <==> other == topic
            || peer.topics.contains_key(other),
        peer.topics.contains_key(other) ==> peer.topic_stats(other) == peer.topics[other],
        !peer.topics.contains_key(other) ==> peer.topic_stats(other) == TopicStats::<N>::fresh(),
        peer.with_topic(topic, stats) == (PeerView {
            topics: peer.with_topic(topic, stats).topics,
            topic_order: peer.with_topic(topic, stats).topic_order,
            ..peer
        }),
{
}

/// A peer is in the mesh of a topic where it is known and its counters there tell of a graft.
pub proof fn being_in_the_mesh_takes_a_graft<N: Number>(s: ScoreView<N>, id: PeerId, topic: Seq<char>)
    ensures
        s.in_mesh(id, topic) <==> s.peers.contains_key(id) && s.peers[id].topics.contains_key(topic)
            && exists|graft_time: Moment, mesh_time: Duration|
            s.peers[id].topics[topic].mesh_status == (MeshStatus::Active {
                graft_time,
                mesh_time,
            }),
{
    if let MeshStatus::Active { graft_time, mesh_time } = s.peers[id].topics[topic].mesh_status {
        assert(s.peers[id].topics[topic].mesh_status == (MeshStatus::Active {
            graft_time,
            mesh_time,
        }));
    }
}

/// Entries of a cache are there, unchanged, as long as their time is not up, and not from then on.
pub proof fn entries_last_until_their_time_is_up<I, V>(
    entries: Map<I, Cached<V>>,
    now: Moment,
    id: I,
)
    ensures
        live(entries, now).contains_key(id) <==> entries.contains_key(id) && now.nanos
            < entries[id].expires.nanos,
        live(entries, now).contains_key(id) ==> live(entries, now)[id] == entries[id],
{
}

/// Time adds up: a span after a moment is that span away from it, and no time has passed since a
/// moment that is still to come.
pub proof fn time_adds_up(moment: Moment, other: Moment, span: Duration)
    ensures
        moment.has_room(span) <==> moment.nanos + span.nanos <= u128::MAX,
        moment.has_room(span) ==> moment.after(span).nanos == moment.nanos + span.nanos,
        moment.has_room(span) ==> moment.after(span).since(moment) == span,
        other.nanos <= moment.nanos ==> other.nanos + moment.since(other).nanos == moment.nanos,
        moment.nanos <= other.nanos ==> moment.since(other).nanos == 0,
{
}

} // verus!
