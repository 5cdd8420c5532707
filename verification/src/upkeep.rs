//! Every event keeps to what every state keeps to: [`ScoreView::inv`] holds at first, and after each
//! event if it held before.
use crate::delivery::{DeliveryStatus, RecordView};
use crate::ids::IpAddr;
use crate::model::ScoreView;
use crate::number::Number;
use crate::params::{ParamsView, PeerScoreThresholds, TopicScoreParams};
use crate::reason::RejectReason;
use crate::stats::{PeerView, TopicStats};
use crate::table::{with_key, without_key};
use crate::time::Moment;
use libp2p_identity::PeerId;
use vstd::prelude::*;

verus! {

/// A key that has come is in the walk, once, at the side of those that were there.
pub proof fn with_key_adds<I>(keys: Seq<I>, id: I)
    requires
        keys.no_duplicates(),
    ensures
        with_key(keys, id).no_duplicates(),
        with_key(keys, id).to_set() == keys.to_set().insert(id),
        forall|k: I| #[trigger]
            with_key(keys, id).contains(k) <==> keys.contains(k) || k == id,
{
    assert forall|k: I| #[trigger] with_key(keys, id).contains(k) <==> keys.contains(k) || k
        == id by {
        if keys.contains(k) {
            let i = keys.index_of(k);
            assert(with_key(keys, id)[i] == k);
        }
        if k == id && !keys.contains(id) {
            assert(with_key(keys, id)[keys.len() as int] == id);
        }
    }
    assert(with_key(keys, id).to_set() =~= keys.to_set().insert(id));
}

/// A key that has gone is not in the walk, and the others are.
pub proof fn without_key_removes<I>(keys: Seq<I>, id: I)
    requires
        keys.no_duplicates(),
    ensures
        without_key(keys, id).no_duplicates(),
        forall|k: I| #[trigger]
            without_key(keys, id).contains(k) <==> keys.contains(k) && k != id,
{
    if keys.contains(id) {
        let gone = keys.index_of(id);
        assert(keys[gone] == id);
        assert forall|k: I| #[trigger] without_key(keys, id).contains(k) <==> keys.contains(k) && k
            != id by {
            if keys.contains(k) && k != id {
                let i = keys.index_of(k);
                assert(without_key(keys, id)[if i < gone { i } else { i - 1 }] == k);
            }
        }
    }
}

/// The state before anything has happened keeps to it.
pub proof fn fresh_keeps<N: Number>(
    params: ParamsView<N>,
    thresholds: PeerScoreThresholds<N>,
    reports_delivery_times: bool,
)
    ensures
        ScoreView::fresh(params, thresholds, reports_delivery_times).inv(),
{
}

/// Changing what is counted of a known peer is harmless where its addresses stay, its topics are
/// scored and walked, and a deficit counts only in a mesh.
pub proof fn with_peer_keeps<N: Number>(s: ScoreView<N>, id: PeerId, peer: PeerView<N>)
    requires
        s.inv(),
        s.peers.contains_key(id),
        peer.known_ips == s.peers[id].known_ips,
        peer.topic_order.no_duplicates(),
        peer.topic_order.to_set() == peer.topics.dom(),
        forall|t: Seq<char>| #[trigger]
            peer.topics.contains_key(t) ==> s.params.topics.contains_key(t)
                && peer.topics[t].inv(),
    ensures
        s.with_peer(id, peer).inv(),
{
    let after = s.with_peer(id, peer);
    assert forall|p: PeerId, ip: IpAddr| #[trigger] after.knows(p, ip) <==> after.lists(ip, p) by {
        assert(s.knows(p, ip) <==> s.lists(ip, p));
    }
}

/// What holds of the topics of a peer after `PeerView::touched`.
proof fn touched_topics<N: Number>(
    s: ScoreView<N>,
    id: PeerId,
    topic: Seq<char>,
    f: spec_fn(TopicStats<N>) -> TopicStats<N>,
)
    requires
        s.inv(),
        s.peers.contains_key(id),
        forall|t: TopicStats<N>| t.inv() ==> (#[trigger] f(t)).inv(),
    ensures
        ({
            let peer = s.peers[id].touched(topic, s.params.topics.contains_key(topic), f);
            &&& peer.known_ips == s.peers[id].known_ips
            &&& peer.topic_order.no_duplicates()
            &&& peer.topic_order.to_set() == peer.topics.dom()
            &&& forall|t: Seq<char>| #[trigger]
                peer.topics.contains_key(t) ==> s.params.topics.contains_key(t)
                    && peer.topics[t].inv()
        }),
{
    with_key_adds(s.peers[id].topic_order, topic);
    let peer = s.peers[id].touched(topic, s.params.topics.contains_key(topic), f);
    assert forall|t: Seq<char>| #[trigger]
        peer.topics.contains_key(t) implies s.params.topics.contains_key(t)
        && peer.topics[t].inv() by {
        if s.peers[id].topics.contains_key(t) {
        } else {
            assert(t == topic);
        }
    }
    assert(peer.topic_order.to_set() =~= peer.topics.dom());
}

/// Changing the counters of a peer that belong to no topic keeps to it.
pub proof fn counters_change_keeps<N: Number>(s: ScoreView<N>, id: PeerId)
    requires
        s.inv(),
    ensures
        forall|count: usize| #[trigger] s.penalty_added(id, count).inv(),
        s.slowness_noted(id).inv(),
        forall|score: N| #[trigger] s.application_score_set(id, score).inv(),
{
    if s.peers.contains_key(id) {
        assert forall|peer: PeerView<N>|
            peer.known_ips == s.peers[id].known_ips && peer.topic_order == s.peers[id].topic_order
                && peer.topics == s.peers[id].topics implies #[trigger] s.with_peer(
            id,
            peer,
        ).inv() by {
            assert forall|t: Seq<char>| #[trigger]
                peer.topics.contains_key(t) implies s.params.topics.contains_key(t)
                && peer.topics[t].inv() by {
                assert(s.peers[id].topics.contains_key(t));
            }
            with_peer_keeps(s, id, peer);
        }
    }
}

/// Changing the counters of a topic keeps to it, where a deficit still counts only in a mesh.
pub proof fn touched_keeps<N: Number>(
    s: ScoreView<N>,
    id: PeerId,
    topic: Seq<char>,
    f: spec_fn(TopicStats<N>) -> TopicStats<N>,
)
    requires
        s.inv(),
        forall|t: TopicStats<N>| t.inv() ==> (#[trigger] f(t)).inv(),
    ensures
        s.touched(id, topic, f).inv(),
{
    if s.peers.contains_key(id) {
        touched_topics(s, id, topic, f);
        with_peer_keeps(
            s,
            id,
            s.peers[id].touched(topic, s.params.topics.contains_key(topic), f),
        );
    }
}

/// Changing the counters of a topic for many peers keeps to it, where a deficit still counts only in
/// a mesh.
pub proof fn all_touched_keeps<N: Number>(
    s: ScoreView<N>,
    ids: Set<PeerId>,
    topic: Seq<char>,
    f: spec_fn(TopicStats<N>) -> TopicStats<N>,
)
    requires
        s.inv(),
        forall|t: TopicStats<N>| t.inv() ==> (#[trigger] f(t)).inv(),
    ensures
        s.all_touched(ids, topic, f).inv(),
{
    let after = s.all_touched(ids, topic, f);
    assert forall|id: PeerId| #[trigger] s.peers.contains_key(id) implies {
        &&& after.peers[id].known_ips == s.peers[id].known_ips
        &&& after.peers[id].topic_order.no_duplicates()
        &&& after.peers[id].topic_order.to_set() == after.peers[id].topics.dom()
        &&& forall|t: Seq<char>| #[trigger]
            after.peers[id].topics.contains_key(t) ==> s.params.topics.contains_key(t)
                && after.peers[id].topics[t].inv()
    } by {
        touched_topics(s, id, topic, f);
    }
    assert forall|p: PeerId, ip: IpAddr| #[trigger] after.knows(p, ip) <==> after.lists(ip, p) by {
        assert(s.knows(p, ip) <==> s.lists(ip, p));
    }
}

/// Putting a sound record there keeps to it.
pub proof fn with_record_keeps<N: Number>(
    s: ScoreView<N>,
    message: Seq<u8>,
    record: RecordView,
    now: Moment,
)
    requires
        s.inv(),
        record.inv(),
    ensures
        s.with_record(message, record, now).inv(),
{
    let after = s.with_record(message, record, now);
    assert forall|p: PeerId, ip: IpAddr| #[trigger] after.knows(p, ip) <==> after.lists(ip, p) by {
        assert(s.knows(p, ip) <==> s.lists(ip, p));
    }
}

/// What is known of a message is sound.
pub proof fn record_is_sound<N: Number>(s: ScoreView<N>, message: Seq<u8>, now: Moment)
    requires
        s.inv(),
    ensures
        s.record(message, now).inv(),
{
}

/// Forgetting a peer keeps to it.
pub proof fn forgotten_keeps<N: Number>(s: ScoreView<N>, id: PeerId)
    requires
        s.inv(),
        s.peers.contains_key(id),
    ensures
        s.forgotten(id).inv(),
{
    let after = s.forgotten(id);
    assert forall|p: PeerId, ip: IpAddr| #[trigger] after.knows(p, ip) <==> after.lists(ip, p) by {
        assert(s.knows(p, ip) <==> s.lists(ip, p));
    }
}

/// A refresh keeps to it.
pub proof fn refreshed_keeps<N: Number>(s: ScoreView<N>, now: Moment)
    requires
        s.inv(),
    ensures
        s.refreshed(now).inv(),
{
    let after = s.refreshed(now);
    assert forall|p: PeerId, ip: IpAddr| #[trigger] after.knows(p, ip) <==> after.lists(ip, p) by {
        assert(s.knows(p, ip) <==> s.lists(ip, p));
    }
    assert forall|id: PeerId| #[trigger] after.peers.contains_key(id) implies {
        &&& after.peers[id].topics.dom() == s.peers[id].topics.dom()
    } by {
        assert(after.peers[id].topics.dom() =~= s.peers[id].topics.dom());
    }
    assert forall|ip: IpAddr| #[trigger] after.ips.contains_key(ip) implies
        after.ips[ip].finite() by {
        assert(s.ips.contains_key(ip));
        vstd::set_lib::lemma_set_subset_finite(s.ips[ip], after.ips[ip]);
    }
    assert forall|id: PeerId, topic: Seq<char>|
        #![trigger after.peers[id].topics.contains_key(topic)]
        after.peers.contains_key(id) && after.peers[id].topics.contains_key(
            topic,
        ) implies after.params.topics.contains_key(topic)
        && after.peers[id].topics[topic].inv() by {
        assert(s.peers[id].topics.contains_key(topic));
    }
}

/// A new peer keeps to it.
pub proof fn peer_added_keeps<N: Number>(s: ScoreView<N>, id: PeerId)
    requires
        s.inv(),
    ensures
        s.peer_added(id).inv(),
{
    let after = s.peer_added(id);
    assert(PeerView::<N>::fresh().topic_order.to_set() =~= PeerView::<N>::fresh().topics.dom());
    assert forall|p: PeerId, ip: IpAddr| #[trigger] after.knows(p, ip) <==> after.lists(ip, p) by {
        assert(s.knows(p, ip) <==> s.lists(ip, p));
    }
}

/// A new address keeps to it.
pub proof fn ip_added_keeps<N: Number>(s: ScoreView<N>, id: PeerId, ip: IpAddr)
    requires
        s.inv(),
    ensures
        s.ip_added(id, ip).inv(),
{
    let after = s.ip_added(id, ip);
    assert(PeerView::<N>::fresh().topic_order.to_set() =~= PeerView::<N>::fresh().topics.dom());
    with_key_adds(s.peer(id).known_ips, ip);
    assert forall|p: PeerId, i: IpAddr| #[trigger] after.knows(p, i) <==> after.lists(i, p) by {
        assert(s.knows(p, i) <==> s.lists(i, p));
    }
}

/// An address that is given up keeps to it.
pub proof fn ip_removed_keeps<N: Number>(s: ScoreView<N>, id: PeerId, ip: IpAddr)
    requires
        s.inv(),
    ensures
        s.ip_removed(id, ip).inv(),
{
    let after = s.ip_removed(id, ip);
    if s.peers.contains_key(id) {
        without_key_removes(s.peers[id].known_ips, ip);
    }
    assert forall|p: PeerId, i: IpAddr| #[trigger] after.knows(p, i) <==> after.lists(i, p) by {
        assert(s.knows(p, i) <==> s.lists(i, p));
    }
}

/// A peer that leaves keeps to it.
pub proof fn peer_removed_keeps<N: Number>(s: ScoreView<N>, id: PeerId, now: Moment)
    requires
        s.inv(),
    ensures
        s.peer_removed(id, now).inv(),
{
    if s.peers.contains_key(id) {
        forgotten_keeps(s, id);
        let peer = s.peers[id].departed(s.params, now.after(s.params.retain_score));
        assert(peer.topics.dom() =~= s.peers[id].topics.dom());
        assert forall|t: Seq<char>| #[trigger]
            peer.topics.contains_key(t) implies s.params.topics.contains_key(t)
            && peer.topics[t].inv() by {
            assert(s.peers[id].topics.contains_key(t));
        }
        with_peer_keeps(s, id, peer);
    }
}

/// New parameters of a topic keep to it.
pub proof fn topic_params_set_keeps<N: Number>(
    s: ScoreView<N>,
    topic: Seq<char>,
    params: TopicScoreParams<N>,
)
    requires
        s.inv(),
    ensures
        s.topic_params_set(topic, params).inv(),
{
    let after = s.topic_params_set(topic, params);
    assert forall|id: PeerId| #[trigger] after.peers.contains_key(id) implies {
        &&& after.peers[id].known_ips == s.peers[id].known_ips
        &&& after.peers[id].topics.dom() == s.peers[id].topics.dom()
        &&& after.peers[id].topic_order == s.peers[id].topic_order
    } by {
        let peer = s.peers[id];
        assert(s.peers.contains_key(id));
        assert(peer.topic_order.to_set().contains(topic) == peer.topic_order.contains(topic));
        assert(after.peers[id].topics.dom() =~= peer.topics.dom());
    }
    assert forall|p: PeerId, ip: IpAddr| #[trigger] after.knows(p, ip) <==> after.lists(ip, p) by {
        assert(s.knows(p, ip) <==> s.lists(ip, p));
    }
    assert forall|id: PeerId, t: Seq<char>|
        #![trigger after.peers[id].topics.contains_key(t)]
        after.peers.contains_key(id) && after.peers[id].topics.contains_key(
            t,
        ) implies after.params.topics.contains_key(t) && after.peers[id].topics[t].inv() by {
        assert(s.peers[id].topics.contains_key(t));
    }
}

/// A message whose validation begins keeps to it.
pub proof fn validating_keeps<N: Number>(s: ScoreView<N>, message: Seq<u8>, now: Moment)
    requires
        s.inv(),
    ensures
        s.validating(message, now).inv(),
{
    record_is_sound(s, message, now);
    with_record_keeps(s, message, s.record(message, now), now);
}

/// A delivered message keeps to it.
pub proof fn delivered_keeps<N: Number>(
    s: ScoreView<N>,
    from: PeerId,
    message: Seq<u8>,
    topic: Seq<char>,
    now: Moment,
)
    requires
        s.inv(),
    ensures
        s.delivered(from, message, topic, now).inv(),
{
    let params = s.params.topics[topic];
    let rewarded = s.first_delivered(from, topic);
    let record = s.record(message, now);
    touched_keeps(s, from, topic, |t: TopicStats<N>| t.first_delivered(params));
    record_is_sound(s, message, now);
    with_record_keeps(rewarded, message, record, now);
    with_record_keeps(rewarded, message, record.validated(now), now);
    all_touched_keeps(
        rewarded.with_record(message, record.validated(now), now),
        record.peers.remove(from),
        topic,
        |t: TopicStats<N>| t.mesh_delivered(params),
    );
}

/// A rejected message keeps to it.
pub proof fn rejected_keeps<N: Number>(
    s: ScoreView<N>,
    from: PeerId,
    message: Seq<u8>,
    topic: Seq<char>,
    reason: RejectReason,
    now: Moment,
)
    requires
        s.inv(),
    ensures
        s.rejected(from, message, topic, reason, now).inv(),
{
    let record = s.record(message, now);
    let invalid = |t: TopicStats<N>| t.invalid_delivered();
    record_is_sound(s, message, now);
    touched_keeps(s, from, topic, invalid);
    with_record_keeps(s, message, record, now);
    with_record_keeps(s, message, record.settled(DeliveryStatus::Ignored), now);
    let settled = s.with_record(message, record.settled(DeliveryStatus::Invalid), now);
    with_record_keeps(s, message, record.settled(DeliveryStatus::Invalid), now);
    touched_keeps(settled, from, topic, invalid);
    all_touched_keeps(settled.invalid_delivered(from, topic), record.peers, topic, invalid);
}

/// A duplicated message keeps to it.
pub proof fn duplicated_keeps<N: Number>(
    s: ScoreView<N>,
    from: PeerId,
    message: Seq<u8>,
    topic: Seq<char>,
    now: Moment,
)
    requires
        s.inv(),
    ensures
        s.duplicated(from, message, topic, now).inv(),
{
    let record = s.record(message, now);
    let same = s.with_record(message, record, now);
    let noted = s.with_record(message, record.delivered_by(from), now);
    record_is_sound(s, message, now);
    with_record_keeps(s, message, record, now);
    touched_keeps(same, from, topic, |t: TopicStats<N>| t.invalid_delivered());
    match record.status {
        DeliveryStatus::Unknown => {
            with_record_keeps(s, message, record.delivered_by(from), now);
        },
        DeliveryStatus::Valid(at) => {
            let params = s.params.topics[topic];
            let counts = s.duplicate_counts(topic, Some(at), now);
            with_record_keeps(s, message, record.delivered_by(from), now);
            touched_keeps(
                noted,
                from,
                topic,
                |t: TopicStats<N>|
                    if counts {
                        t.mesh_delivered(params)
                    } else {
                        t
                    },
            );
        },
        _ => {},
    }
}

/// Changing the counters of peers one after the other changes those of all of them.
pub proof fn one_more_touched<N: Number>(
    s: ScoreView<N>,
    ids: Set<PeerId>,
    id: PeerId,
    topic: Seq<char>,
    f: spec_fn(TopicStats<N>) -> TopicStats<N>,
    g: spec_fn(TopicStats<N>) -> TopicStats<N>,
)
    requires
        !ids.contains(id),
        forall|t: TopicStats<N>| #[trigger] f(t) == g(t),
    ensures
        s.all_touched(ids, topic, f).touched(id, topic, g) == s.all_touched(
            ids.insert(id),
            topic,
            f,
        ),
{
    let left = s.all_touched(ids, topic, f).touched(id, topic, g);
    let right = s.all_touched(ids.insert(id), topic, f);
    if s.peers.contains_key(id) {
        let stats = s.peers[id].topic_stats(topic);
        assert(f(stats) == g(stats));
    }
    assert(left.peers =~= right.peers);
}

} // verus!
