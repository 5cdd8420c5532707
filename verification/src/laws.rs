//! What holds across events, whatever the peers do.
use crate::delivery::{live, RecordView};
use crate::ids::IpAddr;
use crate::model::{record_lifetime, topics_capped, ScoreView};
use crate::number::{zero, Number};
use crate::params::TopicScoreParams;
use crate::reason::{Penalty, RejectReason};
use crate::stats::{ConnectionStatus, MeshStatus, PeerView, TopicStats};
use crate::table::{with_key, without_key};
use crate::time::Moment;
use libp2p_identity::PeerId;
use vstd::prelude::*;

verus! {

/// The state after refreshes at `times`, one after the other.
pub open spec fn refreshed_at<N: Number>(s: ScoreView<N>, times: Seq<Moment>) -> ScoreView<N>
    decreases times.len(),
{
    if times.len() == 0 {
        s
    } else {
        refreshed_at(s, times.drop_last()).refreshed(times.last())
    }
}

/// A peer that leaves is kept if and only if its score is not positive.
pub proof fn kept_unless_positive<N: Number>(s: ScoreView<N>, id: PeerId, now: Moment)
    requires
        s.peers.contains_key(id),
    ensures
        s.peer_removed(id, now).peers.contains_key(id) <==> !zero::<N>().below_spec(s.score(id)),
{
}

/// A score can be set for as long as it is held: until a refresh would throw it away.
pub proof fn score_is_held_until_it_is_thrown_away<N: Number>(
    s: ScoreView<N>,
    id: PeerId,
    now: Moment,
)
    ensures
        s.holds_score(id, now) <==> s.refreshed(now).peers.contains_key(id),
{
}

/// What is counted of a disconnected peer stays as it is until its time is up.
pub proof fn retained_counters_do_not_decay<N: Number>(
    s: ScoreView<N>,
    id: PeerId,
    expire: Moment,
    times: Seq<Moment>,
)
    requires
        s.peers.contains_key(id),
        s.peers[id].status == (ConnectionStatus::Disconnected { expire }),
        forall|i: int| 0 <= i < times.len() ==> (#[trigger] times[i]).nanos <= expire.nanos,
    ensures
        refreshed_at(s, times).peers.contains_key(id),
        refreshed_at(s, times).peers[id] == s.peers[id],
        refreshed_at(s, times).params == s.params,
    decreases times.len(),
{
    if times.len() > 0 {
        assert forall|i: int| 0 <= i < times.drop_last().len() implies (
        #[trigger] times.drop_last()[i]).nanos <= expire.nanos by {
            assert(times.drop_last()[i] == times[i]);
        }
        retained_counters_do_not_decay(s, id, expire, times.drop_last());
        assert(times.last() == times[times.len() - 1]);
    }
}

/// A peer cannot get rid of a score that is not positive by leaving at `left` and coming back,
/// however often the scores are refreshed meanwhile, unless the retention period has elapsed. All
/// that its absence costs are its first deliveries and its place in the meshes, and a deficit in a
/// mesh stays with it as a mesh failure.
pub proof fn leaving_resets_no_score<N: Number>(
    s: ScoreView<N>,
    id: PeerId,
    left: Moment,
    times: Seq<Moment>,
)
    requires
        s.peers.contains_key(id),
        !zero::<N>().below_spec(s.score(id)),
        left.has_room(s.params.retain_score),
        forall|i: int|
            0 <= i < times.len() ==> (#[trigger] times[i]).nanos <= left.nanos
                + s.params.retain_score.nanos,
    ensures
        ({
            let back = refreshed_at(s.peer_removed(id, left), times).peer_added(id);
            let before = s.peers[id];
            let after = back.peers[id];
            &&& back.peers.contains_key(id)
            &&& after.status is Connected
            &&& after.behaviour_penalty == before.behaviour_penalty
            &&& after.application_score == before.application_score
            &&& after.slow_peer_penalty == before.slow_peer_penalty
            &&& after.known_ips == before.known_ips
            &&& after.topics.dom() == before.topics.dom()
            &&& forall|t: Seq<char>| #[trigger]
                before.topics.contains_key(t) ==> {
                    let was = before.topics[t];
                    let is = after.topics[t];
                    &&& is.mesh_status is InActive
                    &&& is.first_message_deliveries == zero::<N>()
                    &&& is.mesh_message_deliveries == was.mesh_message_deliveries
                    &&& is.invalid_message_deliveries == was.invalid_message_deliveries
                    &&& is.mesh_failure_penalty == if s.params.topics.contains_key(t)
                        && was.mesh_status is Active && was.has_deficit(
                        s.params.topics[t].mesh_message_deliveries_threshold,
                    ) {
                        was.mesh_failure_penalty.plus_spec(
                            was.deficit_squared(
                                s.params.topics[t].mesh_message_deliveries_threshold,
                            ),
                        )
                    } else {
                        was.mesh_failure_penalty
                    }
                }
        }),
{
    let expire = left.after(s.params.retain_score);
    let gone = s.peer_removed(id, left);
    retained_counters_do_not_decay(gone, id, expire, times);
    assert(gone.peers[id].topics.dom() =~= s.peers[id].topics.dom());
}

/// Once its time is up, a peer that has left is forgotten, and is behind no address any more.
pub proof fn expired_peer_leaves_no_trace<N: Number>(s: ScoreView<N>, id: PeerId, now: Moment)
    requires
        s.inv(),
        s.peers.contains_key(id),
        s.peers[id].expired(now),
    ensures
        !s.refreshed(now).peers.contains_key(id),
        forall|ip: IpAddr| !s.refreshed(now).lists(ip, id),
{
    assert forall|ip: IpAddr| !s.refreshed(now).lists(ip, id) by {
        assert(s.knows(id, ip) <==> s.lists(ip, id));
    }
}

/// A peer that is forgotten on leaving is behind no address any more.
pub proof fn forgotten_peer_leaves_no_trace<N: Number>(s: ScoreView<N>, id: PeerId, now: Moment)
    requires
        s.inv(),
        s.peers.contains_key(id),
        zero::<N>().below_spec(s.score(id)),
    ensures
        !s.peer_removed(id, now).peers.contains_key(id),
        forall|ip: IpAddr| !s.peer_removed(id, now).lists(ip, id),
{
    assert forall|ip: IpAddr| !s.peer_removed(id, now).lists(ip, id) by {
        assert(s.knows(id, ip) <==> s.lists(ip, id));
    }
}

/// Giving up an address undoes coming from it: what is counted of a connected peer is as before,
/// and the same peers are behind each address.
pub proof fn removing_an_address_undoes_adding_it<N: Number>(
    s: ScoreView<N>,
    id: PeerId,
    ip: IpAddr,
)
    requires
        s.inv(),
        s.peers.contains_key(id),
        s.peers[id].status is Connected,
        !s.peers[id].known_ips.contains(ip),
    ensures
        s.ip_added(id, ip).ip_removed(id, ip).peers == s.peers,
        forall|i: IpAddr, p: PeerId|
            s.ip_added(id, ip).ip_removed(id, ip).lists(i, p) == #[trigger] s.lists(i, p),
{
    let known = s.peers[id].known_ips;
    let added = s.ip_added(id, ip);
    let back = added.ip_removed(id, ip);
    assert(with_key(known, ip) == known.push(ip));
    assert(known.push(ip)[known.len() as int] == ip);
    assert(known.push(ip).contains(ip));
    let i = known.push(ip).index_of(ip);
    assert(i == known.len()) by {
        if i < known.len() {
            assert(known[i] == ip);
            assert(known.contains(ip));
        }
    }
    assert(without_key(known.push(ip), ip) =~= known);
    assert(back.peers =~= s.peers);
    assert forall|i: IpAddr, p: PeerId| back.lists(i, p) == #[trigger] s.lists(i, p) by {
        assert(s.knows(id, ip) <==> s.lists(ip, id));
    }
}

/// A record lasts for its lifetime and no longer: until then it is what it was, and from then on
/// nothing is known of the message.
pub proof fn record_lasts_for_its_lifetime<N: Number>(
    s: ScoreView<N>,
    message: Seq<u8>,
    record: RecordView,
    made: Moment,
    now: Moment,
)
    requires
        !live(s.deliveries, made).contains_key(message),
        made.has_room(record_lifetime()),
    ensures
        s.with_record(message, record, made).record(message, now) == if now.nanos < made.nanos
            + record_lifetime().nanos {
            record
        } else {
            RecordView::fresh(now)
        },
{
}

/// A peer that sends a message again is not counted again, as long as the message has not been
/// rejected and its record lasts; nor is its delivery time reported again.
pub proof fn duplicate_counts_once<N: Number>(
    s: ScoreView<N>,
    from: PeerId,
    message: Seq<u8>,
    topic: Seq<char>,
    first: Moment,
    second: Moment,
)
    requires
        s.record(message, first).status is Unknown || s.record(message, first).status is Valid,
        live(s.duplicated(from, message, topic, first).deliveries, second).contains_key(message),
    ensures
        s.duplicated(from, message, topic, first).duplicated(from, message, topic, second).peers
            == s.duplicated(from, message, topic, first).peers,
        s.duplicated(from, message, topic, first).duplicate_report(from, message, topic, second)
            is None,
{
}

/// The first deliverer of a message is rewarded for a first delivery alone, even if it has also
/// sent duplicates of the message.
pub proof fn first_deliverer_is_counted_once<N: Number>(
    s: ScoreView<N>,
    from: PeerId,
    message: Seq<u8>,
    topic: Seq<char>,
    now: Moment,
)
    requires
        s.peers.contains_key(from),
    ensures
        s.delivered(from, message, topic, now).peers[from] == s.first_delivered(
            from,
            topic,
        ).peers[from],
{
}

/// A message that was found valid is a first delivery of `from`, a mesh delivery of the peers that
/// have sent it before, and nothing to anybody else.
pub proof fn delivery_touches_deliverers_only<N: Number>(
    s: ScoreView<N>,
    from: PeerId,
    message: Seq<u8>,
    topic: Seq<char>,
    now: Moment,
    other: PeerId,
)
    requires
        other != from,
        s.peers.contains_key(other),
    ensures
        ({
            let record = s.record(message, now);
            s.delivered(from, message, topic, now).peers[other] == if record.status is Unknown
                && record.peers.contains(other) {
                s.duplicate_delivered(other, topic, true).peers[other]
            } else {
                s.peers[other]
            }
        }),
{
}

/// Whatever is reported of a message, what has become of it is settled once, until its record is
/// gone.
pub proof fn outcome_is_final<N: Number>(
    s: ScoreView<N>,
    from: PeerId,
    message: Seq<u8>,
    topic: Seq<char>,
    reason: RejectReason,
    now: Moment,
)
    requires
        !(s.record(message, now).status is Unknown),
    ensures
        ({
            let status = s.record(message, now).status;
            &&& s.validating(message, now).record(message, now).status == status
            &&& s.delivered(from, message, topic, now).record(message, now).status == status
            &&& s.rejected(from, message, topic, reason, now).record(message, now).status == status
            &&& s.duplicated(from, message, topic, now).record(message, now).status == status
        }),
{
}

/// An outcome of validation that comes after the message is settled is nobody's fault.
pub proof fn late_rejection_blames_nobody<N: Number>(
    s: ScoreView<N>,
    from: PeerId,
    message: Seq<u8>,
    topic: Seq<char>,
    reason: RejectReason,
    now: Moment,
)
    requires
        !(s.record(message, now).status is Unknown),
        reason is ValidationIgnored || reason is ValidationFailed,
    ensures
        s.rejected(from, message, topic, reason, now).peers == s.peers,
{
}

/// Messages of blacklisted peers change nothing, and ignored messages are nobody's fault.
pub proof fn ignored_messages_blame_nobody<N: Number>(
    s: ScoreView<N>,
    from: PeerId,
    message: Seq<u8>,
    topic: Seq<char>,
    now: Moment,
)
    ensures
        s.rejected(from, message, topic, RejectReason::BlackListedPeer, now) == s,
        s.rejected(from, message, topic, RejectReason::BlackListedSource, now) == s,
        s.rejected(from, message, topic, RejectReason::ValidationIgnored, now).peers == s.peers,
        s.rejected(from, message, topic, RejectReason::ValidationIgnored, now).ips == s.ips,
{
}

/// A failed validation is the fault of everybody who has sent the message, and of nobody else: it
/// is one more invalid message for `from`, and one more for each peer that has sent a duplicate,
/// which `from` may be one of.
pub proof fn failed_validation_blames_all_senders<N: Number>(
    s: ScoreView<N>,
    from: PeerId,
    message: Seq<u8>,
    topic: Seq<char>,
    now: Moment,
    id: PeerId,
)
    requires
        s.record(message, now).status is Unknown,
        s.peers.contains_key(id),
    ensures
        ({
            let senders = s.record(message, now).peers;
            let after = s.rejected(from, message, topic, RejectReason::ValidationFailed, now);
            let once = s.invalid_delivered(id, topic);
            let twice = once.invalid_delivered(id, topic);
            after.peers[id] == if id == from && senders.contains(id) {
                twice.peers[id]
            } else if id == from || senders.contains(id) {
                once.peers[id]
            } else {
                s.peers[id]
            }
        }),
{
}

/// Nothing is counted in a topic that is not scored.
pub proof fn unscored_topics_count_for_nothing<N: Number>(
    s: ScoreView<N>,
    id: PeerId,
    message: Seq<u8>,
    topic: Seq<char>,
    reason: RejectReason,
    now: Moment,
)
    requires
        s.inv(),
        !s.params.topics.contains_key(topic),
    ensures
        s.grafted(id, topic, now) == s,
        s.pruned(id, topic) == s,
        s.invalid_delivered(id, topic) == s,
        s.delivered(id, message, topic, now).peers == s.peers,
        s.rejected(id, message, topic, reason, now).peers == s.peers,
        s.duplicated(id, message, topic, now).peers == s.peers,
{
    assert forall|p: PeerId| #[trigger]
        s.peers.contains_key(p) implies !s.peers[p].topics.contains_key(topic) by {
        if s.peers[p].topics.contains_key(topic) {
            assert(s.params.topics.contains_key(topic));
        }
    }
    assert forall|p: PeerId, f: spec_fn(TopicStats<N>) -> TopicStats<N>| #[trigger]
        s.touched(p, topic, f) == s by {
        assert(s.touched(p, topic, f).peers =~= s.peers);
    }
    assert(s.delivered(id, message, topic, now).peers =~= s.peers);
    assert(s.rejected(id, message, topic, reason, now).peers =~= s.peers);
    assert(s.duplicated(id, message, topic, now).peers =~= s.peers);
}

/// A known peer is in the mesh of a scored topic once it is grafted, and is not once it is pruned
/// or has left.
pub proof fn grafting_and_pruning<N: Number>(
    s: ScoreView<N>,
    id: PeerId,
    topic: Seq<char>,
    now: Moment,
)
    requires
        s.peers.contains_key(id),
        s.params.topics.contains_key(topic),
    ensures
        s.grafted(id, topic, now).in_mesh(id, topic),
        !s.pruned(id, topic).in_mesh(id, topic),
        !s.peer_removed(id, now).in_mesh(id, topic),
{
}

/// A deficit counts against a peer from the first refresh on that finds it in the mesh for longer
/// than the activation time.
pub proof fn deficits_count_from_activation_on<N: Number>(
    s: ScoreView<N>,
    id: PeerId,
    topic: Seq<char>,
    grafted: Moment,
    now: Moment,
)
    requires
        s.peers.contains_key(id),
        s.peers[id].status is Connected,
        s.params.topics.contains_key(topic),
    ensures
        ({
            let stats = s.grafted(id, topic, grafted).refreshed(now).peers[id].topics[topic];
            &&& stats.mesh_message_deliveries_active <==> now.since(grafted).nanos
                > s.params.topics[topic].mesh_message_deliveries_activation.nanos
            &&& stats.mesh_status == (MeshStatus::Active {
                graft_time: grafted,
                mesh_time: now.since(grafted),
            })
        }),
{
    let before = s.grafted(id, topic, grafted);
    assert(before.peers[id].status is Connected);
    assert(before.peers[id].topics.contains_key(topic));
}

/// A count of deliveries that goes up is never above its cap: it is the cap, or the cap is not
/// below it.
pub proof fn deliveries_are_capped<N: Number>(stats: TopicStats<N>, params: TopicScoreParams<N>)
    ensures
        ({
            let first = stats.first_delivered(params).first_message_deliveries;
            let cap = params.first_message_deliveries_cap;
            first == cap || !cap.below_spec(first)
        }),
        stats.mesh_status is Active ==> ({
            let mesh = stats.mesh_delivered(params).mesh_message_deliveries;
            let cap = params.mesh_message_deliveries_cap;
            mesh == cap || !cap.below_spec(mesh)
        }),
{
}

/// When the caps of a topic come down, the counts of every peer come down to them.
pub proof fn lowered_caps_take_effect<N: Number>(
    s: ScoreView<N>,
    topic: Seq<char>,
    params: TopicScoreParams<N>,
    id: PeerId,
)
    requires
        s.params.topics.contains_key(topic),
        s.peers.contains_key(id),
        s.peers[id].topics.contains_key(topic),
    ensures
        ({
            let before = s.params.topics[topic];
            let stats = s.topic_params_set(topic, params).peers[id].topics[topic];
            &&& params.first_message_deliveries_cap.below_spec(before.first_message_deliveries_cap)
                ==> stats.first_message_deliveries == params.first_message_deliveries_cap
                || !params.first_message_deliveries_cap.below_spec(stats.first_message_deliveries)
            &&& params.mesh_message_deliveries_cap.below_spec(before.mesh_message_deliveries_cap)
                ==> stats.mesh_message_deliveries == params.mesh_message_deliveries_cap
                || !params.mesh_message_deliveries_cap.below_spec(stats.mesh_message_deliveries)
        }),
{
}

/// Where there is a positive cap, the topics of a peer count for no more than the cap.
pub proof fn topic_score_is_capped<N: Number>(score: N, cap: N)
    requires
        zero::<N>().below_spec(cap),
    ensures
        topics_capped(score, cap) == cap || !cap.below_spec(topics_capped(score, cap)),
{
}

/// An address costs a peer nothing where it is whitelisted or not over the threshold.
pub proof fn harmless_addresses_cost_nothing<N: Number>(
    s: ScoreView<N>,
    peer: PeerView<N>,
    score: N,
    penalties: Seq<Penalty>,
    n: int,
)
    requires
        0 <= n <= peer.known_ips.len(),
        forall|i: int|
            0 <= i < n ==> s.params.ip_colocation_factor_whitelist.contains(
                #[trigger] peer.known_ips[i],
            ) || !s.params.ip_colocation_factor_threshold.below_spec(
                s.peers_behind(peer.known_ips[i]),
            ),
    ensures
        s.colocation_sum(peer, score, n) == score,
        s.colocation_penalties(peer, penalties, n) == penalties,
    decreases n,
{
    if n > 0 {
        harmless_addresses_cost_nothing(s, peer, score, penalties, n - 1);
        assert(!s.colocation_counts(peer.known_ips[n - 1]));
    }
}

/// What a peer's counters are worth depends on the parameters and on who shares its addresses,
/// and on nothing else in the state.
pub proof fn score_rests_on_params_and_addresses<N: Number>(
    s: ScoreView<N>,
    t: ScoreView<N>,
    peer: PeerView<N>,
)
    requires
        s.params == t.params,
        s.ips == t.ips,
    ensures
        s.score_of(peer) == t.score_of(peer),
        s.penalties_of(peer) == t.penalties_of(peer),
{
    let topics = peer.topic_order.len() as int;
    let ips = peer.known_ips.len() as int;
    topic_sums_agree(s, t, peer, topics);
    let app = topics_capped(
        s.topics_sum(peer, topics),
        s.params.topic_score_cap,
    ).plus_spec(peer.application_score.times_spec(s.params.app_specific_weight));
    colocation_sums_agree(s, t, peer, app, s.topic_penalties(peer, topics), ips);
}

/// The topics of a peer are worth the same by the same parameters.
proof fn topic_sums_agree<N: Number>(s: ScoreView<N>, t: ScoreView<N>, peer: PeerView<N>, n: int)
    requires
        s.params == t.params,
    ensures
        s.topics_sum(peer, n) == t.topics_sum(peer, n),
        s.topic_penalties(peer, n) == t.topic_penalties(peer, n),
    decreases n,
{
    if n > 0 {
        topic_sums_agree(s, t, peer, n - 1);
    }
}

/// The addresses of a peer cost the same by the same parameters and with the same peers there.
proof fn colocation_sums_agree<N: Number>(
    s: ScoreView<N>,
    t: ScoreView<N>,
    peer: PeerView<N>,
    score: N,
    penalties: Seq<Penalty>,
    n: int,
)
    requires
        s.params == t.params,
        s.ips == t.ips,
    ensures
        s.colocation_sum(peer, score, n) == t.colocation_sum(peer, score, n),
        s.colocation_penalties(peer, penalties, n) == t.colocation_penalties(peer, penalties, n),
    decreases n,
{
    if n > 0 {
        colocation_sums_agree(s, t, peer, score, penalties, n - 1);
        let ip = peer.known_ips[n - 1];
        assert(s.colocation_counts(ip) == t.colocation_counts(ip));
    }
}

/// Misbehaviour of one peer leaves the others alone, and that of an unknown peer is not counted.
pub proof fn misbehaviour_is_ones_own<N: Number>(
    s: ScoreView<N>,
    id: PeerId,
    count: usize,
    other: PeerId,
)
    requires
        other != id,
    ensures
        s.penalty_added(id, count).score(other) == s.score(other),
        s.penalty_added(id, count).penalties(other) == s.penalties(other),
        s.penalty_added(id, count).peers.dom() == s.peers.dom(),
        !s.peers.contains_key(id) ==> s.penalty_added(id, count) == s,
{
    score_rests_on_params_and_addresses(s, s.penalty_added(id, count), s.peer(other));
    assert(s.penalty_added(id, count).peers.dom() =~= s.peers.dom());
}

/// What happens to the messages and meshes of one peer leaves the scores of the others alone.
pub proof fn scores_are_apart<N: Number>(
    s: ScoreView<N>,
    id: PeerId,
    topic: Seq<char>,
    f: spec_fn(TopicStats<N>) -> TopicStats<N>,
    other: PeerId,
)
    requires
        other != id,
    ensures
        s.touched(id, topic, f).score(other) == s.score(other),
        s.touched(id, topic, f).penalties(other) == s.penalties(other),
{
    score_rests_on_params_and_addresses(s, s.touched(id, topic, f), s.peer(other));
}

} // verus!
