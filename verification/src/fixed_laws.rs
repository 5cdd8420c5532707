//! The bounds on counters and scores where the numbers are [`Fixed`], which keep all of the order
//! that the laws in [`crate::bounds`] ask for.
use crate::bounds::{
    cap_holds, caps_are_sensible, counters_within_caps, leaving_lowers_no_mesh_failure,
    new_caps_leave_counters_within_caps, penalties_add_up, score_is_capped,
};
use crate::fixed::{magnitude, signed, Fixed, ONE};
use crate::laws::refreshed_at;
use crate::model::ScoreView;
use crate::number::{asymmetric, penalties_lower, squared, squares_raise, zero, Number};
use crate::params::{ParamsView, TopicScoreParams};
use crate::time::{Duration, Moment};
use libp2p_identity::PeerId;
use vstd::prelude::*;

verus! {

/// A square is not negative.
proof fn square_is_not_negative(x: Fixed)
    ensures
        squared(x).micros >= 0,
{
    let m = magnitude(x.micros as int);
    assert(m * m / (ONE as int) >= 0) by (nonlinear_arith)
        requires
            ONE > 0,
            m >= 0,
    ;
}

/// What is not negative, weighted by what is not positive, is not positive.
proof fn penalty_is_not_positive(x: Fixed, weight: Fixed)
    requires
        x.micros >= 0,
        weight.micros <= 0,
    ensures
        x.times_spec(weight).micros <= 0,
{
    let a = magnitude(x.micros as int);
    let b = magnitude(weight.micros as int);
    assert(a * b / (ONE as int) >= 0) by (nonlinear_arith)
        requires
            ONE > 0,
            a >= 0,
            b >= 0,
    ;
    if weight.micros == 0 {
        assert(a * b == 0) by (nonlinear_arith)
            requires
                b == 0,
        ;
    }
}

/// Fixed-point numbers keep an order.
pub proof fn fixed_numbers_are_ordered()
    ensures
        asymmetric::<Fixed>(),
        penalties_lower::<Fixed>(),
        squares_raise::<Fixed>(),
{
    assert forall|x: Fixed, weight: Fixed|
        !zero::<Fixed>().below_spec(weight) implies !zero::<Fixed>().below_spec(
        #[trigger] squared(x).times_spec(weight),
    ) by {
        square_is_not_negative(x);
        penalty_is_not_positive(squared(x), weight);
    }
    assert forall|x: Fixed, y: Fixed, weight: Fixed|
        y.below_spec(x) && !zero::<Fixed>().below_spec(weight) implies !zero::<Fixed>().below_spec(
        #[trigger] x.minus_spec(y).times_spec(weight),
    ) by {
        penalty_is_not_positive(x.minus_spec(y), weight);
    }
    assert forall|weight: Fixed| !zero::<Fixed>().below_spec(
        #[trigger] zero::<Fixed>().times_spec(weight),
    ) by {
        let w = magnitude(weight.micros as int);
        assert(0 * w / (ONE as int) == 0);
    }
    assert forall|x: Fixed, y: Fixed| !(#[trigger] x.plus_spec(squared(y))).below_spec(x) by {
        square_is_not_negative(y);
    }
}

/// Where there is a positive cap on what the topics count, no score is above the cap, however many
/// topics a peer serves, unless the application has assigned one or a penalty has a positive
/// weight.
pub proof fn fixed_score_is_capped(s: ScoreView<Fixed>, id: PeerId)
    requires
        zero::<Fixed>().below_spec(s.params.topic_score_cap),
        s.peer(id).application_score == zero::<Fixed>(),
        !zero::<Fixed>().below_spec(s.params.ip_colocation_factor_weight),
        !zero::<Fixed>().below_spec(s.params.behaviour_penalty_weight),
        !zero::<Fixed>().below_spec(s.params.slow_peer_weight),
    ensures
        !s.params.topic_score_cap.below_spec(s.score(id)),
{
    fixed_numbers_are_ordered();
    score_is_capped(s, id);
}

/// Two penalties count as one of their sum. The one exception is a counter below zero where the sum
/// is over the largest number: there the sum is cut off before it is added.
pub proof fn fixed_penalties_add_up(s: ScoreView<Fixed>, id: PeerId, a: usize, b: usize)
    requires
        a + b <= usize::MAX,
        s.peer(id).behaviour_penalty.micros >= 0 || (a + b) * ONE <= i64::MAX || a == 0 || b == 0,
    ensures
        s.penalty_added(id, a).penalty_added(id, b) == s.penalty_added(id, (a + b) as usize),
{
    assert((a + b) * ONE == a * ONE + b * ONE) by (nonlinear_arith);
    penalties_add_up(s, id, a, b);
}

/// A peer that leaves with a score that is not positive and comes back within the retention period
/// has no fewer mesh failures than before, however often the scores are refreshed meanwhile.
pub proof fn leaving_lowers_no_fixed_mesh_failure(
    s: ScoreView<Fixed>,
    id: PeerId,
    left: Moment,
    times: Seq<Moment>,
)
    requires
        s.peers.contains_key(id),
        !zero::<Fixed>().below_spec(s.score(id)),
        left.has_room(s.params.retain_score),
        forall|i: int|
            0 <= i < times.len() ==> (#[trigger] times[i]).nanos <= left.nanos
                + s.params.retain_score.nanos,
    ensures
        ({
            let after = refreshed_at(s.peer_removed(id, left), times).peer_added(id).peers[id];
            forall|t: Seq<char>| #[trigger]
                s.peers[id].topics.contains_key(t) ==> after.topics.contains_key(t)
                    && !after.topics[t].mesh_failure_penalty.below_spec(
                    s.peers[id].topics[t].mesh_failure_penalty,
                )
        }),
{
    fixed_numbers_are_ordered();
    leaving_lowers_no_mesh_failure(s, id, left, times);
}

/// New parameters of a topic leave no counter of any peer above a cap, connected or not.
pub proof fn new_caps_leave_fixed_counters_within_caps(
    s: ScoreView<Fixed>,
    topic: Seq<char>,
    params: TopicScoreParams<Fixed>,
)
    requires
        counters_within_caps(s),
    ensures
        counters_within_caps(s.topic_params_set(topic, params)),
{
    new_caps_leave_counters_within_caps(s, topic, params);
}

/// A cap that is not negative holds where the counter decays by a factor between zero and one.
proof fn fixed_cap_holds(cap: Fixed, factor: Fixed)
    requires
        0 <= cap.micros,
        0 <= factor.micros <= ONE,
    ensures
        cap_holds(cap, factor),
{
    assert forall|x: Fixed| !cap.below_spec(x) implies !cap.below_spec(
        #[trigger] x.times_spec(factor),
    ) by {
        let a = magnitude(x.micros as int);
        let b = factor.micros as int;
        assert(0 <= a * b / (ONE as int) <= a) by (nonlinear_arith)
            requires
                ONE > 0,
                a >= 0,
                0 <= b <= ONE,
        ;
    }
}

/// Caps that are not negative hold where deliveries decay by factors between zero and one.
pub proof fn fixed_caps_are_sensible(params: ParamsView<Fixed>)
    requires
        forall|t: Seq<char>| #[trigger]
            params.topics.contains_key(t) ==> {
                let p = params.topics[t];
                &&& p.first_message_deliveries_cap.micros >= 0
                &&& p.mesh_message_deliveries_cap.micros >= 0
                &&& 0 <= p.first_message_deliveries_decay.micros <= ONE
                &&& 0 <= p.mesh_message_deliveries_decay.micros <= ONE
            },
    ensures
        caps_are_sensible(params),
{
    assert forall|t: Seq<char>| #[trigger] params.topics.contains_key(t) implies ({
        let p = params.topics[t];
        &&& cap_holds(p.first_message_deliveries_cap, p.first_message_deliveries_decay)
        &&& cap_holds(p.mesh_message_deliveries_cap, p.mesh_message_deliveries_decay)
    }) by {
        let p = params.topics[t];
        fixed_cap_holds(p.first_message_deliveries_cap, p.first_message_deliveries_decay);
        fixed_cap_holds(p.mesh_message_deliveries_cap, p.mesh_message_deliveries_decay);
    }
}

/// Sums, differences and counts are exact where they fit, and the number closest to them where they
/// do not; numbers compare as their millionths do.
pub proof fn fixed_sums_are_exact(x: Fixed, y: Fixed, n: usize)
    ensures
        is_closest(x.plus_spec(y).micros as int, x.micros + y.micros),
        is_closest(x.minus_spec(y).micros as int, x.micros - y.micros),
        is_closest(Fixed::of_count_spec(n).micros as int, n * 1_000_000),
        x.below_spec(y) <==> x.micros < y.micros,
        x.same_spec(y) <==> x.micros == y.micros,
{
}

/// `r` is `x` where a number has room for it, and the largest or the smallest number otherwise.
pub open spec fn is_closest(r: int, x: int) -> bool {
    &&& i64::MIN <= x <= i64::MAX ==> r == x
    &&& x > i64::MAX ==> r == i64::MAX
    &&& x < i64::MIN ==> r == i64::MIN
}

/// `r` is `x / d` cut off towards zero, made to fit.
pub open spec fn is_quotient(r: int, x: int, d: int) -> bool {
    exists|q: int|
        #![trigger is_closest(r, q)]
        {
            &&& is_closest(r, q)
            &&& x >= 0 ==> q * d <= x < (q + 1) * d
            &&& x < 0 ==> (q - 1) * d < x <= q * d
        }
}

/// A product is the exact one, a span of time its exact seconds, and a quotient the exact one, cut
/// off to millionths towards zero; division by zero gives the largest or the smallest number, or
/// zero for zero.
pub proof fn fixed_products_are_cut_off(x: Fixed, y: Fixed, span: Duration)
    ensures
        is_quotient(x.times_spec(y).micros as int, x.micros * y.micros, 1_000_000),
        is_quotient(Fixed::seconds_spec(span).micros as int, span.nanos as int, 1000),
        y.micros > 0 ==> is_quotient(
            x.over_spec(y).micros as int,
            x.micros * 1_000_000,
            y.micros as int,
        ),
        y.micros < 0 ==> is_quotient(
            x.over_spec(y).micros as int,
            -(x.micros * 1_000_000),
            -y.micros as int,
        ),
        y.micros == 0 ==> x.over_spec(y).micros == if x.micros > 0 {
            i64::MAX as int
        } else if x.micros < 0 {
            i64::MIN as int
        } else {
            0
        },
{
    let a = x.micros as int;
    let b = y.micros as int;
    let p = magnitude(a) * magnitude(b);
    assert(a * b == signed(a, b, p) && p >= 0) by (nonlinear_arith)
        requires
            p == magnitude(a) * magnitude(b),
    ;
    cut_off(signed(a, b, p), 1_000_000);
    assert(is_quotient(x.times_spec(y).micros as int, a * b, 1_000_000)) by {
        let q = signed(a, b, p / (ONE as int));
        assert(is_closest(x.times_spec(y).micros as int, q));
    }
    cut_off(span.nanos as int, 1000);
    assert(is_closest(Fixed::seconds_spec(span).micros as int, span.nanos as int / 1000));
    if b != 0 {
        let d = magnitude(b);
        let n = magnitude(a) * 1_000_000;
        cut_off(signed(a, b, n), d);
        let q = signed(a, b, n / d);
        assert(is_closest(x.over_spec(y).micros as int, q));
    }
}

/// The quotient of the magnitude, with the sign, is the quotient cut off towards zero.
proof fn cut_off(x: int, d: int)
    requires
        d > 0,
    ensures
        ({
            let q = if x < 0 {
                -((-x) / d)
            } else {
                x / d
            };
            &&& x >= 0 ==> q * d <= x < (q + 1) * d
            &&& x < 0 ==> (q - 1) * d < x <= q * d
        }),
{
    if x >= 0 {
        let q = x / d;
        assert(q * d <= x < (q + 1) * d) by (nonlinear_arith)
            requires
                d > 0,
                x >= 0,
                q == x / d,
        ;
    } else {
        let m = -x;
        let q = m / d;
        assert(q * d <= m < (q + 1) * d) by (nonlinear_arith)
            requires
                d > 0,
                m >= 0,
                q == m / d,
        ;
        assert((-q - 1) * d == -((q + 1) * d)) by (nonlinear_arith);
        assert((-q) * d == -(q * d)) by (nonlinear_arith);
    }
}

} // verus!
