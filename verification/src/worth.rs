//! What scores are made of: how each thing that is counted moves a score, and how little else does.
use crate::fixed::{magnitude, Fixed, ONE};
use crate::ids::IpAddr;
use crate::model::{topic_score, ScoreView};
use crate::number::Number;
use crate::params::{ParamsView, TopicScoreParams};
use crate::reason::Penalty;
use crate::stats::{MeshStatus, PeerView, TopicStats};
use crate::time::{Duration, Moment};
use libp2p_identity::PeerId;
use vstd::prelude::*;

verus! {

/// A peer that is not known has a score of zero and no penalties.
pub proof fn unknown_peers_score_zero<N: Number>(s: ScoreView<N>, id: PeerId)
    requires
        !s.peers.contains_key(id),
    ensures
        s.score(id) == N::of_count_spec(0),
        s.penalties(id).len() == 0,
{
}

/// First deliveries that are not below their cap count as the cap, whatever they are.
pub proof fn first_deliveries_over_the_cap_count_as_the_cap<N: Number>(
    params: TopicScoreParams<N>,
    stats: TopicStats<N>,
)
    requires
        !stats.first_message_deliveries.below_spec(params.first_message_deliveries_cap),
    ensures
        topic_score(params, stats) == topic_score(
            params,
            TopicStats {
                first_message_deliveries: params.first_message_deliveries_cap,
                ..stats
            },
        ),
{
}

/// Two times in the mesh neither of which is below the cap count the same, and it makes no
/// difference when the graft was.
pub proof fn time_over_the_cap_counts_as_the_cap<N: Number>(
    params: TopicScoreParams<N>,
    stats: TopicStats<N>,
    graft: Moment,
    time: Duration,
    other_graft: Moment,
    other_time: Duration,
)
    requires
        time == other_time || {
            let quantum = N::seconds_spec(params.time_in_mesh_quantum);
            let cap = params.time_in_mesh_cap;
            &&& !N::seconds_spec(time).over_spec(quantum).below_spec(cap)
            &&& !N::seconds_spec(other_time).over_spec(quantum).below_spec(cap)
        },
    ensures
        topic_score(
            params,
            TopicStats {
                mesh_status: MeshStatus::Active { graft_time: graft, mesh_time: time },
                ..stats
            },
        ) == topic_score(
            params,
            TopicStats {
                mesh_status: MeshStatus::Active { graft_time: other_graft, mesh_time: other_time },
                ..stats
            },
        ),
{
}

/// Out of the mesh it makes no difference how time in the mesh would count.
pub proof fn time_counts_in_the_mesh_only<N: Number>(
    params: TopicScoreParams<N>,
    other: TopicScoreParams<N>,
    stats: TopicStats<N>,
)
    requires
        stats.mesh_status == MeshStatus::InActive,
        other == (TopicScoreParams {
            time_in_mesh_weight: other.time_in_mesh_weight,
            time_in_mesh_quantum: other.time_in_mesh_quantum,
            time_in_mesh_cap: other.time_in_mesh_cap,
            ..params
        }),
    ensures
        topic_score(params, stats) == topic_score(other, stats),
{
}

/// A peer that is not behind in its mesh deliveries, or whose deficit does not count yet or has no
/// weight, has the score that it would have without a deficit; then it does not matter how many mesh
/// deliveries there are.
pub proof fn without_a_deficit_mesh_deliveries_do_not_count<N: Number>(
    params: TopicScoreParams<N>,
    stats: TopicStats<N>,
    deliveries: N,
)
    requires
        !stats.mesh_message_deliveries_active || !stats.mesh_message_deliveries.below_spec(
            params.mesh_message_deliveries_threshold,
        ) || params.mesh_message_deliveries_weight.same_spec(N::of_count_spec(0)),
    ensures
        topic_score(params, stats) == topic_score(
            params,
            TopicStats {
                mesh_message_deliveries_active: false,
                mesh_message_deliveries: deliveries,
                ..stats
            },
        ),
{
}

/// Misbehaviour and slowness that are not over their thresholds cost nothing, however much there is
/// of them.
pub proof fn little_misbehaviour_and_slowness_cost_nothing<N: Number>(
    s: ScoreView<N>,
    peer: PeerView<N>,
    misbehaviour: N,
    slowness: N,
)
    ensures
        !s.params.behaviour_penalty_threshold.below_spec(peer.behaviour_penalty)
            && !s.params.behaviour_penalty_threshold.below_spec(misbehaviour) ==> s.score_of(peer)
            == s.score_of(PeerView { behaviour_penalty: misbehaviour, ..peer }),
        !s.params.slow_peer_threshold.below_spec(peer.slow_peer_penalty)
            && !s.params.slow_peer_threshold.below_spec(slowness) ==> s.score_of(peer)
            == s.score_of(PeerView { slow_peer_penalty: slowness, ..peer }),
{
    let a = PeerView { behaviour_penalty: misbehaviour, ..peer };
    let b = PeerView { slow_peer_penalty: slowness, ..peer };
    sums_rest_on_topics_and_addresses(s, peer, a);
    sums_rest_on_topics_and_addresses(s, peer, b);
}

/// Two caps neither of which is positive and exceeded by what the topics of a peer are worth give
/// the same score: a cap has no other effect.
pub proof fn cap_that_is_not_exceeded_has_no_effect<N: Number>(
    s: ScoreView<N>,
    t: ScoreView<N>,
    peer: PeerView<N>,
)
    requires
        t.ips == s.ips,
        t.params == (ParamsView { topic_score_cap: t.params.topic_score_cap, ..s.params }),
        ({
            let worth = s.topics_sum(peer, peer.topic_order.len() as int);
            let cap = s.params.topic_score_cap;
            let other = t.params.topic_score_cap;
            &&& !N::of_count_spec(0).below_spec(cap) || !cap.below_spec(worth)
            &&& !N::of_count_spec(0).below_spec(other) || !other.below_spec(worth)
        }),
    ensures
        s.score_of(peer) == t.score_of(peer),
{
    let n = peer.topic_order.len() as int;
    topics_agree_by(s, t, peer, n);
    assert forall|score: N, m: int| #[trigger]
        s.colocation_sum(peer, score, m) == t.colocation_sum(peer, score, m) by {
        addresses_agree_by(s, t, peer, score, m);
    }
}

/// Topics are worth the same by the same parameters of the topics.
proof fn topics_agree_by<N: Number>(s: ScoreView<N>, t: ScoreView<N>, peer: PeerView<N>, n: int)
    requires
        t.params.topics == s.params.topics,
    ensures
        s.topics_sum(peer, n) == t.topics_sum(peer, n),
    decreases n,
{
    if n > 0 {
        topics_agree_by(s, t, peer, n - 1);
    }
}

/// Addresses cost the same whatever the cap on topics is.
proof fn addresses_agree_by<N: Number>(
    s: ScoreView<N>,
    t: ScoreView<N>,
    peer: PeerView<N>,
    score: N,
    n: int,
)
    requires
        t.ips == s.ips,
        t.params == (ParamsView { topic_score_cap: t.params.topic_score_cap, ..s.params }),
    ensures
        s.colocation_sum(peer, score, n) == t.colocation_sum(peer, score, n),
    decreases n,
{
    if n > 0 {
        addresses_agree_by(s, t, peer, score, n - 1);
        let ip = peer.known_ips[n - 1];
        assert(s.colocation_counts(ip) == t.colocation_counts(ip));
    }
}

/// What the topics and addresses of two peers are worth is the same where these are the same.
proof fn sums_rest_on_topics_and_addresses<N: Number>(
    s: ScoreView<N>,
    a: PeerView<N>,
    b: PeerView<N>,
)
    requires
        a.topics == b.topics,
        a.topic_order == b.topic_order,
        a.known_ips == b.known_ips,
    ensures
        forall|n: int| #[trigger] s.topics_sum(a, n) == s.topics_sum(b, n),
        forall|score: N, n: int| #[trigger]
            s.colocation_sum(a, score, n) == s.colocation_sum(b, score, n),
{
    assert forall|n: int| #[trigger] s.topics_sum(a, n) == s.topics_sum(b, n) by {
        topics_agree(s, a, b, n);
    }
    assert forall|score: N, n: int| #[trigger]
        s.colocation_sum(a, score, n) == s.colocation_sum(b, score, n) by {
        addresses_agree(s, a, b, score, n);
    }
}

/// Peers with the same counters have topics of the same worth.
proof fn topics_agree<N: Number>(s: ScoreView<N>, a: PeerView<N>, b: PeerView<N>, n: int)
    requires
        a.topics == b.topics,
        a.topic_order == b.topic_order,
    ensures
        s.topics_sum(a, n) == s.topics_sum(b, n),
    decreases n,
{
    if n > 0 {
        topics_agree(s, a, b, n - 1);
    }
}

/// Peers with the same addresses pay the same for them.
proof fn addresses_agree<N: Number>(
    s: ScoreView<N>,
    a: PeerView<N>,
    b: PeerView<N>,
    score: N,
    n: int,
)
    requires
        a.known_ips == b.known_ips,
    ensures
        s.colocation_sum(a, score, n) == s.colocation_sum(b, score, n),
    decreases n,
{
    if n > 0 {
        addresses_agree(s, a, b, score, n - 1);
    }
}

/// How far `x` is from zero.
pub open spec fn extent(x: int) -> int {
    if x < 0 {
        -x
    } else {
        x
    }
}

/// The sum of `parts`.
pub open spec fn total(parts: Seq<int>) -> int
    decreases parts.len(),
{
    if parts.len() == 0 {
        0
    } else {
        total(parts.drop_last()) + parts.last()
    }
}

/// How far `parts` are from zero, taken together. No sum of some of them is farther from it.
pub open spec fn spread(parts: Seq<int>) -> int
    decreases parts.len(),
{
    if parts.len() == 0 {
        0
    } else {
        spread(parts.drop_last()) + extent(parts.last())
    }
}

/// P1: quanta of time in the mesh up to the cap, at their weight.
pub open spec fn time_worth(params: TopicScoreParams<Fixed>, stats: TopicStats<Fixed>) -> int {
    match stats.mesh_status {
        MeshStatus::InActive => 0,
        MeshStatus::Active { mesh_time, .. } => {
            let quanta = Fixed::seconds_spec(mesh_time).over_spec(
                Fixed::seconds_spec(params.time_in_mesh_quantum),
            );
            lesser(quanta, params.time_in_mesh_cap).times_spec(
                params.time_in_mesh_weight,
            ).micros as int
        },
    }
}

/// P2: first deliveries up to the cap, at their weight.
pub open spec fn first_worth(params: TopicScoreParams<Fixed>, stats: TopicStats<Fixed>) -> int {
    lesser(stats.first_message_deliveries, params.first_message_deliveries_cap).times_spec(
        params.first_message_deliveries_weight,
    ).micros as int
}

/// P3: the square of what is missing to the threshold, at its weight, once that counts.
pub open spec fn deficit_worth(params: TopicScoreParams<Fixed>, stats: TopicStats<Fixed>) -> int {
    let threshold = params.mesh_message_deliveries_threshold;
    let missing = threshold.minus_spec(stats.mesh_message_deliveries);
    if stats.mesh_message_deliveries_active && stats.mesh_message_deliveries.micros
        < threshold.micros {
        missing.times_spec(missing).times_spec(params.mesh_message_deliveries_weight).micros as int
    } else {
        0
    }
}

/// P3b: mesh failures, at their weight.
pub open spec fn failure_worth(params: TopicScoreParams<Fixed>, stats: TopicStats<Fixed>) -> int {
    stats.mesh_failure_penalty.times_spec(params.mesh_failure_penalty_weight).micros as int
}

/// P4: the square of invalid messages, at its weight.
pub open spec fn invalid_worth(params: TopicScoreParams<Fixed>, stats: TopicStats<Fixed>) -> int {
    let invalid = stats.invalid_message_deliveries;
    invalid.times_spec(invalid).times_spec(params.invalid_message_deliveries_weight).micros as int
}

/// The lesser of two numbers.
pub open spec fn lesser(x: Fixed, y: Fixed) -> Fixed {
    if x.micros <= y.micros {
        x
    } else {
        y
    }
}

/// The parts of a score in a topic fit together into a number.
pub open spec fn topic_fits(params: TopicScoreParams<Fixed>, stats: TopicStats<Fixed>) -> bool {
    extent(time_worth(params, stats)) + extent(first_worth(params, stats)) + extent(
        deficit_worth(params, stats),
    ) + extent(failure_worth(params, stats)) + extent(invalid_worth(params, stats)) <= i64::MAX
}

/// Nothing, at any weight, and anything, at no weight, are worth nothing.
proof fn nothing_is_worth_nothing(x: Fixed)
    ensures
        (Fixed { micros: 0 }).times_spec(x).micros == 0,
        x.times_spec(Fixed { micros: 0 }).micros == 0,
{
    let m = magnitude(x.micros as int);
    assert(0 * m / (ONE as int) == 0);
    assert(m * 0 / (ONE as int) == 0);
}

/// The score in a topic is the sum of its five parts, as long as they fit into a number.
pub proof fn topic_score_is_the_sum_of_its_parts(
    params: TopicScoreParams<Fixed>,
    stats: TopicStats<Fixed>,
)
    requires
        topic_fits(params, stats),
    ensures
        topic_score(params, stats).micros == time_worth(params, stats) + first_worth(params, stats)
            + deficit_worth(params, stats) + failure_worth(params, stats) + invalid_worth(
            params,
            stats,
        ),
{
    let missing = params.mesh_message_deliveries_threshold.minus_spec(
        stats.mesh_message_deliveries,
    );
    nothing_is_worth_nothing(missing.times_spec(missing));
}

/// A deficit comes on top of all else that counts in a topic: it takes the weighted square of what
/// is missing off the score that the peer would have without it.
pub proof fn deficit_comes_on_top(params: TopicScoreParams<Fixed>, stats: TopicStats<Fixed>)
    requires
        topic_fits(params, stats),
        stats.mesh_message_deliveries_active,
        stats.mesh_message_deliveries.below_spec(params.mesh_message_deliveries_threshold),
    ensures
        ({
            let missing = params.mesh_message_deliveries_threshold.minus_spec(
                stats.mesh_message_deliveries,
            );
            topic_score(params, stats).micros == topic_score(
                params,
                TopicStats { mesh_message_deliveries_active: false, ..stats },
            ).micros + missing.times_spec(missing).times_spec(
                params.mesh_message_deliveries_weight,
            ).micros
        }),
{
    topic_score_is_the_sum_of_its_parts(params, stats);
    topic_score_is_the_sum_of_its_parts(
        params,
        TopicStats { mesh_message_deliveries_active: false, ..stats },
    );
}

/// The product at a weight that is not negative keeps the order of numbers, and at one that is not
/// positive it turns the order round.
proof fn weighing_keeps_order(x: Fixed, y: Fixed, weight: Fixed)
    requires
        x.micros <= y.micros,
    ensures
        weight.micros >= 0 ==> x.times_spec(weight).micros <= y.times_spec(weight).micros,
        weight.micros <= 0 ==> x.times_spec(weight).micros >= y.times_spec(weight).micros,
{
    let a = magnitude(x.micros as int);
    let b = magnitude(y.micros as int);
    let w = magnitude(weight.micros as int);
    if a <= b {
        products_keep_order(a, b, w);
    } else {
        products_keep_order(b, a, w);
    }
    if w == 0 {
        assert(a * w == 0 && b * w == 0) by (nonlinear_arith)
            requires
                w == 0,
        ;
    }
}

/// Products of magnitudes, cut off, keep the order of the magnitudes.
proof fn products_keep_order(a: int, b: int, w: int)
    requires
        0 <= a <= b,
        0 <= w,
    ensures
        0 <= a * w / (ONE as int) <= b * w / (ONE as int),
{
    assert(0 <= a * w <= b * w) by (nonlinear_arith)
        requires
            0 <= a <= b,
            0 <= w,
    ;
}

/// Squares of numbers that are not negative keep their order.
proof fn squares_keep_order(x: Fixed, y: Fixed)
    requires
        0 <= x.micros <= y.micros,
    ensures
        0 <= x.times_spec(x).micros <= y.times_spec(y).micros,
{
    weighing_keeps_order(x, y, x);
    weighing_keeps_order(x, y, y);
    nothing_is_worth_nothing(x);
    weighing_keeps_order(Fixed { micros: 0 }, x, x);
    let a = x.micros as int;
    let b = y.micros as int;
    products_keep_order(a, b, b);
    assert(a * b == b * a) by (nonlinear_arith);
}

/// Quotients by a number that is not negative keep the order of numbers that are not negative.
proof fn quotients_keep_order(x: Fixed, y: Fixed, d: Fixed)
    requires
        0 <= x.micros <= y.micros,
        0 <= d.micros,
    ensures
        x.over_spec(d).micros <= y.over_spec(d).micros,
{
    if d.micros > 0 {
        let a = x.micros as int;
        let b = y.micros as int;
        let q = d.micros as int;
        assert(a * ONE / q <= b * ONE / q) by (nonlinear_arith)
            requires
                0 <= a <= b,
                0 < q,
                ONE > 0,
        ;
    }
}

/// Merit never lowers the score in a topic, whether there is a deficit or not: a peer that has been
/// in the mesh for no less time, with no fewer deliveries and no more failures and invalid messages,
/// has no lower score, where merits have weights that are not negative and faults weights that are
/// not positive.
pub proof fn merit_never_lowers_a_topic_score(
    params: TopicScoreParams<Fixed>,
    worse: TopicStats<Fixed>,
    better: TopicStats<Fixed>,
)
    requires
        params.time_in_mesh_weight.micros >= 0,
        params.first_message_deliveries_weight.micros >= 0,
        params.mesh_message_deliveries_weight.micros <= 0,
        params.mesh_failure_penalty_weight.micros <= 0,
        params.invalid_message_deliveries_weight.micros <= 0,
        match (worse.mesh_status, better.mesh_status) {
            (
                MeshStatus::Active { mesh_time: short, .. },
                MeshStatus::Active { mesh_time: long, .. },
            ) => short.nanos <= long.nanos,
            (MeshStatus::InActive, MeshStatus::InActive) => true,
            _ => false,
        },
        better.mesh_message_deliveries_active ==> worse.mesh_message_deliveries_active,
        worse.first_message_deliveries.micros <= better.first_message_deliveries.micros,
        worse.mesh_message_deliveries.micros <= better.mesh_message_deliveries.micros,
        better.mesh_failure_penalty.micros <= worse.mesh_failure_penalty.micros,
        0 <= better.invalid_message_deliveries.micros <= worse.invalid_message_deliveries.micros,
    ensures
        topic_score(params, worse).micros <= topic_score(params, better).micros,
{
    // P1
    if let MeshStatus::Active { mesh_time: short, .. } = worse.mesh_status {
        if let MeshStatus::Active { mesh_time: long, .. } = better.mesh_status {
            let quantum = Fixed::seconds_spec(params.time_in_mesh_quantum);
            let a = Fixed::seconds_spec(short);
            let b = Fixed::seconds_spec(long);
            assert(short.nanos as int / 1000 <= long.nanos as int / 1000);
            quotients_keep_order(a, b, quantum);
            weighing_keeps_order(
                lesser(a.over_spec(quantum), params.time_in_mesh_cap),
                lesser(b.over_spec(quantum), params.time_in_mesh_cap),
                params.time_in_mesh_weight,
            );
        }
    }
    // P2
    weighing_keeps_order(
        lesser(worse.first_message_deliveries, params.first_message_deliveries_cap),
        lesser(better.first_message_deliveries, params.first_message_deliveries_cap),
        params.first_message_deliveries_weight,
    );
    // P3
    let threshold = params.mesh_message_deliveries_threshold;
    let weight = params.mesh_message_deliveries_weight;
    let more = threshold.minus_spec(worse.mesh_message_deliveries);
    let less = threshold.minus_spec(better.mesh_message_deliveries);
    let zero = Fixed { micros: 0 };
    if worse.mesh_message_deliveries.micros < threshold.micros {
        squares_keep_order(more, more);
        nothing_is_worth_nothing(weight);
        weighing_keeps_order(zero, more.times_spec(more), weight);
        if better.mesh_message_deliveries.micros < threshold.micros {
            squares_keep_order(less, more);
            weighing_keeps_order(less.times_spec(less), more.times_spec(more), weight);
        }
    }
    // P3b
    weighing_keeps_order(
        better.mesh_failure_penalty,
        worse.mesh_failure_penalty,
        params.mesh_failure_penalty_weight,
    );
    // P4
    squares_keep_order(better.invalid_message_deliveries, worse.invalid_message_deliveries);
    weighing_keeps_order(
        better.invalid_message_deliveries.times_spec(better.invalid_message_deliveries),
        worse.invalid_message_deliveries.times_spec(worse.invalid_message_deliveries),
        params.invalid_message_deliveries_weight,
    );
}

/// One more first delivery below the cap is worth exactly its weight, whether there is a deficit or
/// not.
pub proof fn first_delivery_is_worth_its_weight(
    params: TopicScoreParams<Fixed>,
    stats: TopicStats<Fixed>,
    more: TopicStats<Fixed>,
)
    requires
        more.first_message_deliveries.micros == stats.first_message_deliveries.micros + ONE,
        more == (TopicStats { first_message_deliveries: more.first_message_deliveries, ..stats }),
        0 <= stats.first_message_deliveries.micros,
        more.first_message_deliveries.micros <= params.first_message_deliveries_cap.micros,
        0 <= params.first_message_deliveries_weight.micros,
        topic_fits(params, stats),
        topic_fits(params, more),
        first_worth(params, more) < i64::MAX,
    ensures
        topic_score(params, more).micros == topic_score(params, stats).micros
            + params.first_message_deliveries_weight.micros,
{
    topic_score_is_the_sum_of_its_parts(params, stats);
    topic_score_is_the_sum_of_its_parts(params, more);
    let x = stats.first_message_deliveries.micros as int;
    let w = params.first_message_deliveries_weight.micros as int;
    assert((x + ONE) * w / (ONE as int) == x * w / (ONE as int) + w) by (nonlinear_arith)
        requires
            0 <= x,
            0 <= w,
            ONE == 1_000_000,
    ;
}

/// What the counters of `topic` are worth to a peer, at the weight of the topic; nothing in a topic
/// that is not scored.
pub open spec fn topic_worth(s: ScoreView<Fixed>, peer: PeerView<Fixed>, topic: Seq<char>) -> int {
    if s.params.topics.contains_key(topic) {
        let params = s.params.topics[topic];
        topic_score(params, peer.topics[topic]).times_spec(params.topic_weight).micros as int
    } else {
        0
    }
}

/// P6: the square of the peers behind `ip` over the threshold, at its weight; nothing for an address
/// on the whitelist.
pub open spec fn address_worth(s: ScoreView<Fixed>, ip: IpAddr) -> int {
    let threshold = s.params.ip_colocation_factor_threshold;
    let here = Fixed::of_count_spec(s.ips[ip].len() as usize);
    let surplus = here.minus_spec(threshold);
    if !s.params.ip_colocation_factor_whitelist.contains(ip) && s.ips.contains_key(ip)
        && threshold.micros < here.micros {
        surplus.times_spec(surplus).times_spec(
            s.params.ip_colocation_factor_weight,
        ).micros as int
    } else {
        0
    }
}

/// P7: the square of misbehaviour over the threshold, at its weight.
pub open spec fn misbehaviour_worth(s: ScoreView<Fixed>, peer: PeerView<Fixed>) -> int {
    let threshold = s.params.behaviour_penalty_threshold;
    let excess = peer.behaviour_penalty.minus_spec(threshold);
    if threshold.micros < peer.behaviour_penalty.micros {
        excess.times_spec(excess).times_spec(s.params.behaviour_penalty_weight).micros as int
    } else {
        0
    }
}

/// Slowness over the threshold, at its weight.
pub open spec fn slowness_worth(s: ScoreView<Fixed>, peer: PeerView<Fixed>) -> int {
    let threshold = s.params.slow_peer_threshold;
    if threshold.micros < peer.slow_peer_penalty.micros {
        peer.slow_peer_penalty.minus_spec(threshold).times_spec(
            s.params.slow_peer_weight,
        ).micros as int
    } else {
        0
    }
}

/// P5: the score that the application has assigned, at its weight.
pub open spec fn application_worth(s: ScoreView<Fixed>, peer: PeerView<Fixed>) -> int {
    peer.application_score.times_spec(s.params.app_specific_weight).micros as int
}

/// What each topic of a peer is worth to it.
pub open spec fn topic_worths(s: ScoreView<Fixed>, peer: PeerView<Fixed>) -> Seq<int> {
    peer.topic_order.map_values(|t: Seq<char>| topic_worth(s, peer, t))
}

/// What each address of a peer is worth to it.
pub open spec fn address_worths(s: ScoreView<Fixed>, peer: PeerView<Fixed>) -> Seq<int> {
    peer.known_ips.map_values(|ip: IpAddr| address_worth(s, ip))
}

/// The parts of a score fit together into a number.
pub open spec fn score_fits(s: ScoreView<Fixed>, peer: PeerView<Fixed>) -> bool {
    spread(topic_worths(s, peer)) + extent(application_worth(s, peer)) + spread(
        address_worths(s, peer),
    ) + extent(misbehaviour_worth(s, peer)) + extent(slowness_worth(s, peer)) <= i64::MAX
}

/// No sum is farther from zero than its parts together.
proof fn total_is_within_spread(parts: Seq<int>)
    ensures
        extent(total(parts)) <= spread(parts),
    decreases parts.len(),
{
    if parts.len() > 0 {
        total_is_within_spread(parts.drop_last());
    }
}

/// The sum over the first topics is the sum of what they are worth.
proof fn topics_add_up(s: ScoreView<Fixed>, peer: PeerView<Fixed>, n: int)
    requires
        0 <= n <= peer.topic_order.len(),
        spread(topic_worths(s, peer).take(n)) <= i64::MAX,
    ensures
        s.topics_sum(peer, n).micros == total(topic_worths(s, peer).take(n)),
    decreases n,
{
    let parts = topic_worths(s, peer);
    if n > 0 {
        assert(parts.take(n).drop_last() =~= parts.take(n - 1));
        total_is_within_spread(parts.take(n));
        topics_add_up(s, peer, n - 1);
    }
}

/// The sum over the first addresses is the sum of what they are worth.
proof fn addresses_add_up(s: ScoreView<Fixed>, peer: PeerView<Fixed>, score: Fixed, n: int)
    requires
        0 <= n <= peer.known_ips.len(),
        extent(score.micros as int) + spread(address_worths(s, peer).take(n)) <= i64::MAX,
    ensures
        s.colocation_sum(peer, score, n).micros == score.micros + total(
            address_worths(s, peer).take(n),
        ),
    decreases n,
{
    let parts = address_worths(s, peer);
    if n > 0 {
        assert(parts.take(n).drop_last() =~= parts.take(n - 1));
        total_is_within_spread(parts.take(n));
        addresses_add_up(s, peer, score, n - 1);
        let ip = peer.known_ips[n - 1];
        let surplus = Fixed::of_count_spec(s.ips[ip].len() as usize).minus_spec(
            s.params.ip_colocation_factor_threshold,
        );
        nothing_is_worth_nothing(surplus.times_spec(surplus));
    } else {
        assert(parts.take(n) =~= Seq::empty());
    }
}

/// To take as many as there are is to take all.
proof fn take_all<A>(parts: Seq<A>)
    ensures
        parts.take(parts.len() as int) == parts,
{
    assert(parts.take(parts.len() as int) =~= parts);
}

/// The score of a peer is what its topics are worth together, up to the cap where there is a
/// positive one, and the score that the application has assigned, what each of its addresses costs,
/// its misbehaviour and its slowness on top, as long as all of this fits into a number.
pub proof fn score_is_the_sum_of_its_parts(s: ScoreView<Fixed>, id: PeerId)
    requires
        s.peers.contains_key(id),
        score_fits(s, s.peers[id]),
    ensures
        ({
            let peer = s.peers[id];
            let cap = s.params.topic_score_cap.micros as int;
            let topics = total(topic_worths(s, peer));
            s.score(id).micros == (if 0 < cap < topics {
                cap
            } else {
                topics
            }) + application_worth(s, peer) + total(address_worths(s, peer)) + misbehaviour_worth(
                s,
                peer,
            ) + slowness_worth(s, peer)
        }),
{
    let peer = s.peers[id];
    take_all(topic_worths(s, peer));
    take_all(address_worths(s, peer));
    total_is_within_spread(topic_worths(s, peer));
    total_is_within_spread(address_worths(s, peer));
    spread_is_not_negative(topic_worths(s, peer));
    spread_is_not_negative(address_worths(s, peer));
    let n = peer.topic_order.len() as int;
    topics_add_up(s, peer, n);
    let cap = s.params.topic_score_cap;
    let topics = s.topics_sum(peer, n);
    let capped = if 0 < cap.micros < topics.micros {
        cap
    } else {
        topics
    };
    let app = capped.plus_spec(peer.application_score.times_spec(s.params.app_specific_weight));
    assert(app.micros == capped.micros + application_worth(s, peer));
    addresses_add_up(s, peer, app, peer.known_ips.len() as int);
}

/// Parts together are not less than nothing away from zero.
proof fn spread_is_not_negative(parts: Seq<int>)
    ensures
        0 <= spread(parts),
    decreases parts.len(),
{
    if parts.len() > 0 {
        spread_is_not_negative(parts.drop_last());
    }
}

/// A part may be taken out of a sum wherever it stands.
proof fn part_taken_out(parts: Seq<int>, i: int)
    requires
        0 <= i < parts.len(),
    ensures
        total(parts) == total(parts.remove(i)) + parts[i],
        spread(parts) == spread(parts.remove(i)) + extent(parts[i]),
    decreases parts.len(),
{
    if i == parts.len() - 1 {
        assert(parts.remove(i) =~= parts.drop_last());
    } else {
        part_taken_out(parts.drop_last(), i);
        assert(parts.remove(i).drop_last() =~= parts.drop_last().remove(i));
        assert(parts.remove(i).last() == parts.last());
    }
}

/// Where the same keys are walked in another order, the sums over what they are worth are the same.
proof fn order_of_a_sum_does_not_matter<A>(a: Seq<A>, b: Seq<A>, worth: spec_fn(A) -> int)
    requires
        a.no_duplicates(),
        b.no_duplicates(),
        a.to_set() == b.to_set(),
    ensures
        total(a.map_values(worth)) == total(b.map_values(worth)),
        spread(a.map_values(worth)) == spread(b.map_values(worth)),
    decreases a.len(),
{
    a.unique_seq_to_set();
    b.unique_seq_to_set();
    if a.len() > 0 {
        let last = a.last();
        assert(a.to_set().contains(last)) by {
            assert(a.contains(last));
        }
        assert(b.contains(last));
        let i = b.index_of(last);
        let front = a.drop_last();
        let rest = b.remove(i);
        assert forall|x: A| front.to_set().contains(x) <==> rest.to_set().contains(x) by {
            if front.contains(x) {
                let j = front.index_of(x);
                assert(a[j] == x);
                assert(a.to_set().contains(x));
                assert(b.contains(x));
                let k = b.index_of(x);
                assert(x != last);
                assert(rest[if k < i { k } else { k - 1 }] == x);
            }
            if rest.contains(x) {
                let k = rest.index_of(x);
                assert(b[if k < i { k } else { k + 1 }] == x);
                assert(b.to_set().contains(x));
                assert(a.contains(x));
                let j = a.index_of(x);
                assert(x != last);
                assert(front[j] == x);
            }
        }
        assert(front.to_set() =~= rest.to_set());
        order_of_a_sum_does_not_matter(front, rest, worth);
        part_taken_out(b.map_values(worth), i);
        assert(b.map_values(worth).remove(i) =~= rest.map_values(worth));
        assert(a.map_values(worth).drop_last() =~= front.map_values(worth));
    }
}

/// It does not matter in which order the topics and addresses of a peer are walked.
pub proof fn order_does_not_matter(s: ScoreView<Fixed>, t: ScoreView<Fixed>, id: PeerId)
    requires
        s.inv(),
        t.inv(),
        s.peers.contains_key(id),
        t.peers.contains_key(id),
        s.params == t.params,
        s.ips == t.ips,
        t.peers[id] == (PeerView {
            topic_order: t.peers[id].topic_order,
            known_ips: t.peers[id].known_ips,
            ..s.peers[id]
        }),
        t.peers[id].known_ips.to_set() == s.peers[id].known_ips.to_set(),
        score_fits(s, s.peers[id]),
    ensures
        s.score(id) == t.score(id),
{
    let a = s.peers[id];
    let b = t.peers[id];
    let topic = |x: Seq<char>| topic_worth(s, a, x);
    let address = |ip: IpAddr| address_worth(s, ip);
    order_of_a_sum_does_not_matter(a.topic_order, b.topic_order, topic);
    order_of_a_sum_does_not_matter(a.known_ips, b.known_ips, address);
    assert(topic_worths(s, a) =~= a.topic_order.map_values(topic));
    assert(topic_worths(t, b) =~= b.topic_order.map_values(topic));
    assert(address_worths(s, a) =~= a.known_ips.map_values(address));
    assert(address_worths(t, b) =~= b.known_ips.map_values(address));
    score_is_the_sum_of_its_parts(s, id);
    score_is_the_sum_of_its_parts(t, id);
}

/// A deficit of `peer` in `topic` counts.
pub open spec fn deficit_is_penalized<N: Number>(
    s: ScoreView<N>,
    peer: PeerView<N>,
    topic: Seq<char>,
) -> bool {
    let params = s.params.topics[topic];
    let stats = peer.topics[topic];
    &&& s.params.topics.contains_key(topic)
    &&& stats.mesh_message_deliveries_active
    &&& stats.mesh_message_deliveries.below_spec(params.mesh_message_deliveries_threshold)
    &&& !params.mesh_message_deliveries_weight.same_spec(N::of_count_spec(0))
}

/// Sharing `ip` counts.
pub open spec fn sharing_is_penalized<N: Number>(s: ScoreView<N>, ip: IpAddr) -> bool {
    &&& s.ips.contains_key(ip)
    &&& !s.params.ip_colocation_factor_whitelist.contains(ip)
    &&& s.params.ip_colocation_factor_threshold.below_spec(
        N::of_count_spec(s.ips[ip].len() as usize),
    )
    &&& !s.params.ip_colocation_factor_weight.same_spec(N::of_count_spec(0))
}

/// The penalties of a peer are one for each topic in which a deficit counts, and then one for each
/// address that it shares with too many others.
pub proof fn penalties_are_those_that_count<N: Number>(s: ScoreView<N>, id: PeerId)
    requires
        s.peers.contains_key(id),
    ensures
        ({
            let peer = s.peers[id];
            let deficits = peer.topic_order.filter(
                |t: Seq<char>| deficit_is_penalized(s, peer, t),
            ).len();
            let shared = peer.known_ips.filter(|ip: IpAddr| sharing_is_penalized(s, ip)).len();
            let penalties = s.penalties(id);
            &&& penalties.len() == deficits + shared
            &&& forall|i: int|
                0 <= i < deficits ==> #[trigger] penalties[i] == Penalty::MessageDeficit
            &&& forall|i: int|
                deficits <= i < deficits + shared ==> #[trigger] penalties[i]
                    == Penalty::IPColocation
        }),
{
    let peer = s.peers[id];
    let topics = peer.topic_order.len() as int;
    take_all(peer.topic_order);
    take_all(peer.known_ips);
    deficits_listed(s, peer, topics);
    sharing_listed(s, peer, s.topic_penalties(peer, topics), peer.known_ips.len() as int);
}

/// Each of the first topics in which a deficit counts is listed once.
proof fn deficits_listed<N: Number>(s: ScoreView<N>, peer: PeerView<N>, n: int)
    requires
        0 <= n <= peer.topic_order.len(),
    ensures
        s.topic_penalties(peer, n).len() == peer.topic_order.take(n).filter(
            |t: Seq<char>| deficit_is_penalized(s, peer, t),
        ).len(),
        forall|i: int|
            0 <= i < s.topic_penalties(peer, n).len() ==> #[trigger] s.topic_penalties(peer, n)[i]
                == Penalty::MessageDeficit,
    decreases n,
{
    reveal(Seq::filter);
    if n > 0 {
        assert(peer.topic_order.take(n).drop_last() =~= peer.topic_order.take(n - 1));
        deficits_listed(s, peer, n - 1);
    }
}

/// Each of the first addresses that is shared too much is listed once, behind what was listed.
proof fn sharing_listed<N: Number>(
    s: ScoreView<N>,
    peer: PeerView<N>,
    before: Seq<Penalty>,
    n: int,
)
    requires
        0 <= n <= peer.known_ips.len(),
    ensures
        ({
            let shared = peer.known_ips.take(n).filter(
                |ip: IpAddr| sharing_is_penalized(s, ip),
            ).len();
            let penalties = s.colocation_penalties(peer, before, n);
            &&& penalties.len() == before.len() + shared
            &&& forall|i: int| 0 <= i < before.len() ==> #[trigger] penalties[i] == before[i]
            &&& forall|i: int|
                before.len() <= i < before.len() + shared ==> #[trigger] penalties[i]
                    == Penalty::IPColocation
        }),
    decreases n,
{
    reveal(Seq::filter);
    if n > 0 {
        assert(peer.known_ips.take(n).drop_last() =~= peer.known_ips.take(n - 1));
        sharing_listed(s, peer, before, n - 1);
    }
}

} // verus!
