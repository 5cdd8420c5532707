//! The scores over the host's floating-point numbers.
use libp2p_identity::PeerId;
use peer_score::{
    Duration, IpAddr, MessageId, Moment, Number, Penalty, PeerScore, PeerScoreParams,
    PeerScoreState, PeerScoreThresholds, RejectReason, Table, TopicHash, TopicScoreParams,
    ValidationError,
};

#[derive(Clone, Copy, Debug, PartialEq)]
struct F(f64);

impl Number for F {
    fn of_count_spec(n: usize) -> F {
        F(n as f64)
    }
    fn seconds_spec(span: Duration) -> F {
        F((span.nanos / 1_000_000_000) as f64 + (span.nanos % 1_000_000_000) as f64 / 1e9)
    }
    fn plus_spec(self, rhs: F) -> F {
        F(self.0 + rhs.0)
    }
    fn minus_spec(self, rhs: F) -> F {
        F(self.0 - rhs.0)
    }
    fn times_spec(self, rhs: F) -> F {
        F(self.0 * rhs.0)
    }
    fn over_spec(self, rhs: F) -> F {
        F(self.0 / rhs.0)
    }
    fn below_spec(self, rhs: F) -> bool {
        self.0 < rhs.0
    }
    fn same_spec(self, rhs: F) -> bool {
        self.0 == rhs.0
    }
    fn of_count(n: usize) -> F {
        F::of_count_spec(n)
    }
    fn seconds(span: Duration) -> F {
        F::seconds_spec(span)
    }
    fn plus(self, rhs: F) -> F {
        self.plus_spec(rhs)
    }
    fn minus(self, rhs: F) -> F {
        self.minus_spec(rhs)
    }
    fn times(self, rhs: F) -> F {
        self.times_spec(rhs)
    }
    fn over(self, rhs: F) -> F {
        self.over_spec(rhs)
    }
    fn below(self, rhs: F) -> bool {
        self.below_spec(rhs)
    }
    fn same(self, rhs: F) -> bool {
        self.same_spec(rhs)
    }
}

const SECOND: u128 = 1_000_000_000;

fn at(secs: u128) -> Moment {
    Moment { nanos: secs * SECOND }
}

fn secs(n: u64) -> Duration {
    Duration::from_secs(n)
}

fn peer(n: u8) -> PeerId {
    PeerId::from_bytes(&[0, 1, n]).unwrap()
}

fn topic() -> TopicHash {
    TopicHash { hash: String::from("topic") }
}

fn other_topic() -> TopicHash {
    TopicHash { hash: String::from("other") }
}

fn msg(n: u8) -> MessageId {
    MessageId(vec![n, n])
}

/// Weights of zero: nothing counts until a test gives it a weight.
fn topic_params() -> TopicScoreParams<F> {
    TopicScoreParams {
        topic_weight: F(1.0),
        time_in_mesh_weight: F(0.0),
        time_in_mesh_quantum: secs(1),
        time_in_mesh_cap: F(3600.0),
        first_message_deliveries_weight: F(0.0),
        first_message_deliveries_decay: F(0.5),
        first_message_deliveries_cap: F(2000.0),
        mesh_message_deliveries_weight: F(0.0),
        mesh_message_deliveries_decay: F(0.5),
        mesh_message_deliveries_cap: F(100.0),
        mesh_message_deliveries_threshold: F(20.0),
        mesh_message_deliveries_window: Duration { nanos: SECOND / 100 },
        mesh_message_deliveries_activation: secs(5),
        mesh_failure_penalty_weight: F(0.0),
        mesh_failure_penalty_decay: F(0.5),
        invalid_message_deliveries_weight: F(0.0),
        invalid_message_deliveries_decay: F(0.25),
    }
}

fn params_with(tp: TopicScoreParams<F>) -> PeerScoreParams<F> {
    let mut topics = Table::new();
    topics.insert(topic(), tp);
    PeerScoreParams {
        topics,
        topic_score_cap: F(0.0),
        app_specific_weight: F(1.0),
        ip_colocation_factor_weight: F(0.0),
        ip_colocation_factor_threshold: F(1.0),
        ip_colocation_factor_whitelist: Table::new(),
        behaviour_penalty_weight: F(0.0),
        behaviour_penalty_threshold: F(0.0),
        behaviour_penalty_decay: F(0.5),
        decay_interval: secs(1),
        decay_to_zero: F(0.1),
        retain_score: secs(3600),
        slow_peer_weight: F(0.0),
        slow_peer_threshold: F(0.0),
        slow_peer_decay: F(0.5),
    }
}

fn thresholds() -> PeerScoreThresholds<F> {
    PeerScoreThresholds {
        gossip_threshold: F(-10.0),
        publish_threshold: F(-50.0),
        graylist_threshold: F(-80.0),
        accept_px_threshold: F(10.0),
        opportunistic_graft_threshold: F(20.0),
    }
}

fn scores(params: PeerScoreParams<F>) -> PeerScore<F> {
    PeerScore::new(params, thresholds())
}

fn score(s: &PeerScore<F>, id: &PeerId) -> f64 {
    s.score_report(id).score.0
}

#[test]
fn unknown_peer_scores_zero() {
    let s = scores(params_with(topic_params()));
    let report = s.score_report(&peer(1));
    assert_eq!(report.score, F(0.0));
    assert!(report.penalties.is_empty());
}

#[test]
fn time_in_mesh_counts_quanta_up_to_the_cap() {
    let tp = TopicScoreParams {
        topic_weight: F(0.5),
        time_in_mesh_weight: F(1.0),
        time_in_mesh_quantum: Duration { nanos: SECOND / 1000 },
        ..topic_params()
    };
    let mut s = scores(params_with(tp));
    s.add_peer(peer(1));
    assert_eq!(score(&s, &peer(1)), 0.0);
    s.graft_at(&peer(1), topic(), at(10));
    // the time in the mesh is brought up to date by a refresh
    assert_eq!(score(&s, &peer(1)), 0.0);
    s.refresh_scores_at(Moment { nanos: 10 * SECOND + SECOND / 5 });
    assert_eq!(score(&s, &peer(1)), 0.5 * 1.0 * 200.0);
    s.refresh_scores_at(at(100));
    assert_eq!(score(&s, &peer(1)), 0.5 * 1.0 * 3600.0);
}

#[test]
fn first_deliveries_count_up_to_the_cap_and_decay() {
    let tp = TopicScoreParams {
        first_message_deliveries_weight: F(1.0),
        first_message_deliveries_cap: F(50.0),
        ..topic_params()
    };
    let mut s = scores(params_with(tp));
    s.add_peer(peer(1));
    s.graft_at(&peer(1), topic(), at(0));
    for i in 0..40 {
        s.deliver_message_at(&peer(1), &msg(i), &topic(), at(1));
    }
    assert_eq!(score(&s, &peer(1)), 40.0);
    for i in 40..100 {
        s.deliver_message_at(&peer(1), &msg(i), &topic(), at(1));
    }
    assert_eq!(score(&s, &peer(1)), 50.0);
    s.refresh_scores_at(at(2));
    assert_eq!(score(&s, &peer(1)), 25.0);
    for _ in 0..8 {
        s.refresh_scores_at(at(2));
    }
    // 25 / 2^8 is below the floor
    assert_eq!(score(&s, &peer(1)), 0.0);
}

#[test]
fn mesh_delivery_deficit_is_penalized_after_activation() {
    let tp = TopicScoreParams {
        mesh_message_deliveries_weight: F(-1.0),
        mesh_message_deliveries_decay: F(1.0),
        ..topic_params()
    };
    let mut s = scores(params_with(tp));
    s.add_peer(peer(1));
    s.graft_at(&peer(1), topic(), at(0));
    s.refresh_scores_at(at(5));
    assert_eq!(score(&s, &peer(1)), 0.0);
    s.refresh_scores_at(at(6));
    let report = s.score_report(&peer(1));
    assert_eq!(report.score, F(-400.0));
    assert_eq!(report.penalties, vec![Penalty::MessageDeficit]);
    for i in 0..5 {
        s.deliver_message_at(&peer(1), &msg(i), &topic(), at(6));
    }
    assert_eq!(s.mesh_message_deliveries(&peer(1), &topic()), Some(F(5.0)));
    assert_eq!(score(&s, &peer(1)), -(15.0 * 15.0));
    for i in 5..20 {
        s.deliver_message_at(&peer(1), &msg(i), &topic(), at(6));
    }
    let report = s.score_report(&peer(1));
    assert_eq!(report.score, F(0.0));
    assert!(report.penalties.is_empty());
}

#[test]
fn mesh_failure_sticks_after_pruning_and_decays() {
    let tp = TopicScoreParams { mesh_failure_penalty_weight: F(-1.0), ..topic_params() };
    let mut s = scores(params_with(tp));
    s.add_peer(peer(1));
    s.graft_at(&peer(1), topic(), at(0));
    s.refresh_scores_at(at(6));
    assert_eq!(score(&s, &peer(1)), 0.0);
    s.prune(&peer(1), topic());
    assert_eq!(score(&s, &peer(1)), -400.0);
    s.refresh_scores_at(at(7));
    assert_eq!(score(&s, &peer(1)), -200.0);
    // the peer is out of the mesh: pruning it again costs nothing
    s.prune(&peer(1), topic());
    assert_eq!(score(&s, &peer(1)), -200.0);
}

#[test]
fn invalid_messages_cost_their_square() {
    let tp = TopicScoreParams { invalid_message_deliveries_weight: F(-1.0), ..topic_params() };
    let mut s = scores(params_with(tp));
    s.add_peer(peer(1));
    for _ in 0..6 {
        s.reject_invalid_message(&peer(1), &topic());
    }
    assert_eq!(score(&s, &peer(1)), -36.0);
    s.refresh_scores_at(at(1));
    assert_eq!(score(&s, &peer(1)), -(1.5 * 1.5));
}

#[test]
fn topics_that_are_not_scored_count_for_nothing() {
    let tp = TopicScoreParams {
        invalid_message_deliveries_weight: F(-1.0),
        first_message_deliveries_weight: F(1.0),
        ..topic_params()
    };
    let mut s = scores(params_with(tp));
    s.add_peer(peer(1));
    s.graft_at(&peer(1), other_topic(), at(0));
    s.deliver_message_at(&peer(1), &msg(1), &other_topic(), at(0));
    s.reject_invalid_message(&peer(1), &other_topic());
    s.prune(&peer(1), other_topic());
    assert_eq!(score(&s, &peer(1)), 0.0);
    assert_eq!(s.mesh_message_deliveries(&peer(1), &other_topic()), None);
}

#[test]
fn topics_are_summed_up_by_weight_and_capped() {
    let tp = TopicScoreParams {
        topic_weight: F(2.0),
        first_message_deliveries_weight: F(1.0),
        ..topic_params()
    };
    let other = TopicScoreParams {
        topic_weight: F(0.5),
        first_message_deliveries_weight: F(1.0),
        ..topic_params()
    };
    let mut params = params_with(tp);
    params.topics.insert(other_topic(), other);
    params.topic_score_cap = F(10.0);
    let mut s = scores(params);
    s.add_peer(peer(1));
    for i in 0..3 {
        s.deliver_message_at(&peer(1), &msg(i), &topic(), at(0));
    }
    for i in 3..7 {
        s.deliver_message_at(&peer(1), &msg(i), &other_topic(), at(0));
    }
    assert_eq!(score(&s, &peer(1)), 2.0 * 3.0 + 0.5 * 4.0);
    s.deliver_message_at(&peer(1), &msg(8), &topic(), at(0));
    assert_eq!(score(&s, &peer(1)), 10.0);
    // the application's score comes on top of the cap
    assert!(s.set_application_score(&peer(1), F(5.0)));
    assert_eq!(score(&s, &peer(1)), 15.0);
}

#[test]
fn penalties_only_lower_a_capped_score() {
    let tp = TopicScoreParams { first_message_deliveries_weight: F(1.0), ..topic_params() };
    let mut params = params_with(tp);
    params.topic_score_cap = F(3.0);
    params.ip_colocation_factor_weight = F(-0.5);
    params.behaviour_penalty_weight = F(-1.0);
    params.slow_peer_weight = F(-0.25);
    let mut s = scores(params);
    s.add_ip(&peer(1), IpAddr::V4(1));
    for i in 0..9 {
        s.deliver_message_at(&peer(1), &msg(i), &topic(), at(0));
    }
    assert_eq!(score(&s, &peer(1)), 3.0);
    s.add_ip(&peer(2), IpAddr::V4(1));
    assert_eq!(score(&s, &peer(1)), 2.5);
    s.failed_message_slow_peer(&peer(1));
    assert_eq!(score(&s, &peer(1)), 2.25);
    s.add_penalty(&peer(1), 2);
    assert_eq!(score(&s, &peer(1)), -1.75);
}

#[test]
fn mesh_failures_are_no_smaller_after_coming_back() {
    let tp = TopicScoreParams { mesh_failure_penalty_weight: F(-1.0), ..topic_params() };
    let mut s = scores(params_with(tp));
    s.add_peer(peer(1));
    s.graft_at(&peer(1), topic(), at(0));
    s.refresh_scores_at(at(6));
    s.prune(&peer(1), topic());
    assert_eq!(score(&s, &peer(1)), -400.0);
    // out of the mesh there is no deficit to add
    s.remove_peer_at(&peer(1), at(7));
    s.refresh_scores_at(at(8));
    s.add_peer(peer(1));
    assert_eq!(score(&s, &peer(1)), -400.0);
    s.graft_at(&peer(1), topic(), at(8));
    s.refresh_scores_at(at(14));
    assert_eq!(score(&s, &peer(1)), -200.0);
    s.remove_peer_at(&peer(1), at(14));
    s.refresh_scores_at(at(15));
    s.add_peer(peer(1));
    assert_eq!(score(&s, &peer(1)), -600.0);
}

#[test]
fn application_score_needs_a_known_peer() {
    let mut params = params_with(topic_params());
    params.app_specific_weight = F(0.5);
    let mut s = scores(params);
    assert!(!s.set_application_score(&peer(1), F(-100.0)));
    assert_eq!(score(&s, &peer(1)), 0.0);
    s.add_peer(peer(1));
    assert!(s.set_application_score(&peer(1), F(-100.0)));
    assert_eq!(score(&s, &peer(1)), -50.0);
}

#[test]
fn application_score_needs_a_score_that_is_not_expired() {
    let mut params = params_with(topic_params());
    params.retain_score = secs(10);
    let mut s = scores(params);
    assert!(!s.set_application_score_at(&peer(1), F(-1.0), at(0)));
    s.add_peer(peer(1));
    // a connected peer has no end
    assert!(s.set_application_score_at(&peer(1), F(-1.0), at(1_000_000)));
    s.remove_peer_at(&peer(1), at(100));
    assert!(s.set_application_score_at(&peer(1), F(-2.0), at(110)));
    assert_eq!(score(&s, &peer(1)), -2.0);
    let late = Moment { nanos: 110 * SECOND + 1 };
    assert!(!s.set_application_score_at(&peer(1), F(-3.0), late));
    // nothing was set, though the counters are still there
    assert_eq!(score(&s, &peer(1)), -2.0);
    s.refresh_scores_at(late);
    assert_eq!(score(&s, &peer(1)), 0.0);
    s.add_peer(peer(1));
    assert!(s.set_application_score_at(&peer(1), F(-3.0), late));
    assert_eq!(score(&s, &peer(1)), -3.0);
}

#[test]
fn parameters_and_thresholds_can_be_read() {
    let mut s = scores(params_with(topic_params()));
    assert_eq!(s.params().retain_score, secs(3600));
    assert_eq!(s.params().topics.len(), 1);
    s.set_topic_params(other_topic(), topic_params());
    assert_eq!(s.params().topics.len(), 2);
    assert_eq!(s.thresholds().publish_threshold, F(-50.0));
    assert_eq!(s.thresholds().opportunistic_graft_threshold, F(20.0));
}

#[test]
fn penalties_add_up_to_their_sum() {
    let mut params = params_with(topic_params());
    params.behaviour_penalty_weight = F(-1.0);
    let mut apart = scores(params);
    let mut params = params_with(topic_params());
    params.behaviour_penalty_weight = F(-1.0);
    let mut at_once = scores(params);
    for s in [&mut apart, &mut at_once] {
        s.add_peer(peer(1));
        s.add_peer(peer(2));
    }
    apart.add_penalty(&peer(1), 3);
    apart.add_penalty(&peer(1), 4);
    at_once.add_penalty(&peer(1), 7);
    assert_eq!(score(&apart, &peer(1)), -49.0);
    assert_eq!(score(&at_once, &peer(1)), -49.0);
    assert_eq!(score(&apart, &peer(2)), 0.0);
}

#[test]
fn sharing_an_address_costs_the_square_of_the_surplus() {
    let mut params = params_with(topic_params());
    params.ip_colocation_factor_weight = F(-1.0);
    params.ip_colocation_factor_whitelist.insert(IpAddr::V4(9), ());
    let mut s = scores(params);
    let shared = IpAddr::V4(1);
    for n in 1..5 {
        s.add_ip(&peer(n), shared);
        s.add_ip(&peer(n), IpAddr::V4(9));
    }
    s.add_ip(&peer(5), IpAddr::V6(1));
    let report = s.score_report(&peer(1));
    assert_eq!(report.score, F(-9.0));
    assert_eq!(report.penalties, vec![Penalty::IPColocation]);
    assert_eq!(score(&s, &peer(5)), 0.0);
    s.remove_ip(&peer(2), &shared);
    assert_eq!(score(&s, &peer(1)), -4.0);
    assert_eq!(score(&s, &peer(2)), 0.0);
    // an unknown peer has no address to give up
    s.remove_ip(&peer(77), &shared);
    assert_eq!(score(&s, &peer(1)), -4.0);
}

#[test]
fn addresses_of_both_versions_are_told_apart() {
    let mut params = params_with(topic_params());
    params.ip_colocation_factor_weight = F(-1.0);
    let mut s = scores(params);
    s.add_ip(&peer(1), IpAddr::V4(7));
    s.add_ip(&peer(2), IpAddr::V6(7));
    assert_eq!(score(&s, &peer(1)), 0.0);
    s.add_ip(&peer(2), IpAddr::V4(7));
    assert_eq!(score(&s, &peer(1)), -1.0);
}

#[test]
fn misbehaviour_costs_the_square_of_the_excess() {
    let mut params = params_with(topic_params());
    params.behaviour_penalty_weight = F(-1.0);
    params.behaviour_penalty_threshold = F(2.0);
    let mut s = scores(params);
    s.add_penalty(&peer(1), 5);
    assert_eq!(score(&s, &peer(1)), 0.0);
    s.add_peer(peer(1));
    s.add_penalty(&peer(1), 2);
    assert_eq!(score(&s, &peer(1)), 0.0);
    s.add_penalty(&peer(1), 4);
    assert_eq!(score(&s, &peer(1)), -16.0);
    s.refresh_scores_at(at(1));
    assert_eq!(score(&s, &peer(1)), -1.0);
}

#[test]
fn slowness_costs_the_excess() {
    let mut params = params_with(topic_params());
    params.slow_peer_weight = F(-0.5);
    params.slow_peer_threshold = F(1.0);
    let mut s = scores(params);
    s.add_peer(peer(1));
    for _ in 0..4 {
        s.failed_message_slow_peer(&peer(1));
    }
    assert_eq!(score(&s, &peer(1)), -1.5);
    s.refresh_scores_at(at(1));
    assert_eq!(score(&s, &peer(1)), -0.5);
}

#[test]
fn retained_score_neither_decays_nor_resets_until_it_expires() {
    let mut params = params_with(topic_params());
    params.retain_score = secs(10);
    let mut s = scores(params);
    s.add_peer(peer(1));
    assert!(s.set_application_score(&peer(1), F(-1000.0)));
    s.add_ip(&peer(1), IpAddr::V4(1));
    s.remove_peer_at(&peer(1), at(100));
    s.refresh_scores_at(at(105));
    s.refresh_scores_at(at(110));
    assert_eq!(score(&s, &peer(1)), -1000.0);
    s.add_peer(peer(1));
    assert_eq!(score(&s, &peer(1)), -1000.0);
    s.remove_peer_at(&peer(1), at(120));
    s.refresh_scores_at(at(131));
    assert_eq!(score(&s, &peer(1)), 0.0);
    assert!(!s.set_application_score(&peer(1), F(1.0)));
}

#[test]
fn expired_peer_no_longer_shares_its_address() {
    let mut params = params_with(topic_params());
    params.ip_colocation_factor_weight = F(-1.0);
    params.retain_score = secs(10);
    let mut s = scores(params);
    s.add_ip(&peer(1), IpAddr::V4(1));
    s.add_ip(&peer(2), IpAddr::V4(1));
    assert_eq!(score(&s, &peer(1)), -1.0);
    s.remove_peer_at(&peer(2), at(0));
    s.refresh_scores_at(at(10));
    assert_eq!(score(&s, &peer(1)), -1.0);
    s.refresh_scores_at(at(11));
    assert_eq!(score(&s, &peer(1)), 0.0);
}

#[test]
fn positive_score_is_forgotten_on_leaving() {
    let mut params = params_with(topic_params());
    params.ip_colocation_factor_weight = F(-1.0);
    let mut s = scores(params);
    s.add_ip(&peer(1), IpAddr::V4(1));
    s.add_ip(&peer(2), IpAddr::V4(1));
    assert!(s.set_application_score(&peer(2), F(5.0)));
    assert_eq!(score(&s, &peer(2)), 4.0);
    s.remove_peer_at(&peer(2), at(0));
    assert!(!s.set_application_score(&peer(2), F(5.0)));
    assert_eq!(score(&s, &peer(1)), 0.0);
    // nothing to remove
    s.remove_peer_at(&peer(3), at(0));
    assert_eq!(score(&s, &peer(3)), 0.0);
}

#[test]
fn leaving_the_mesh_with_a_deficit_counts_as_a_failure() {
    let tp = TopicScoreParams {
        mesh_failure_penalty_weight: F(-1.0),
        first_message_deliveries_weight: F(1.0),
        ..topic_params()
    };
    let mut s = scores(params_with(tp));
    s.add_peer(peer(1));
    assert!(s.set_application_score(&peer(1), F(-50.0)));
    s.graft_at(&peer(1), topic(), at(0));
    s.deliver_message_at(&peer(1), &msg(1), &topic(), at(1));
    s.refresh_scores_at(at(6));
    assert_eq!(score(&s, &peer(1)), 0.5 - 50.0);
    s.remove_peer_at(&peer(1), at(6));
    // the first delivery is forgotten, and the deficit of 19.5 stays
    assert_eq!(score(&s, &peer(1)), -(19.5 * 19.5) - 50.0);
}

#[test]
fn duplicates_before_validation_count_for_mesh_peers_once_the_message_is_valid() {
    let mut s = scores(params_with(topic_params()));
    for n in 1..4 {
        s.add_peer(peer(n));
    }
    s.graft_at(&peer(1), topic(), at(0));
    s.graft_at(&peer(2), topic(), at(0));
    assert_eq!(s.validate_message_at(&peer(1), &msg(1), &topic(), at(1)), None);
    s.duplicated_message_at(&peer(1), &msg(1), &topic(), at(1));
    s.duplicated_message_at(&peer(2), &msg(1), &topic(), at(1));
    s.duplicated_message_at(&peer(2), &msg(1), &topic(), at(1));
    s.duplicated_message_at(&peer(3), &msg(1), &topic(), at(1));
    assert_eq!(s.mesh_message_deliveries(&peer(2), &topic()), Some(F(0.0)));
    s.deliver_message_at(&peer(1), &msg(1), &topic(), at(2));
    // once for the first delivery, and not again for its own duplicate
    assert_eq!(s.mesh_message_deliveries(&peer(1), &topic()), Some(F(1.0)));
    assert_eq!(s.mesh_message_deliveries(&peer(2), &topic()), Some(F(1.0)));
    // not in the mesh
    assert_eq!(s.mesh_message_deliveries(&peer(3), &topic()), Some(F(0.0)));
    // a second trace of the delivery is another first delivery and nothing more
    s.deliver_message_at(&peer(1), &msg(1), &topic(), at(3));
    assert_eq!(s.mesh_message_deliveries(&peer(1), &topic()), Some(F(2.0)));
    assert_eq!(s.mesh_message_deliveries(&peer(2), &topic()), Some(F(1.0)));
}

#[test]
fn duplicates_after_validation_count_once_and_within_the_window() {
    let mut s = scores(params_with(topic_params()));
    for n in 1..4 {
        s.add_peer(peer(n));
        s.graft_at(&peer(n), topic(), at(0));
    }
    s.deliver_message_at(&peer(1), &msg(1), &topic(), at(1));
    let window_end = Moment { nanos: SECOND + SECOND / 100 };
    s.duplicated_message_at(&peer(2), &msg(1), &topic(), window_end);
    s.duplicated_message_at(&peer(2), &msg(1), &topic(), window_end);
    assert_eq!(s.mesh_message_deliveries(&peer(2), &topic()), Some(F(1.0)));
    let too_late = Moment { nanos: window_end.nanos + 1 };
    s.duplicated_message_at(&peer(3), &msg(1), &topic(), too_late);
    assert_eq!(s.mesh_message_deliveries(&peer(3), &topic()), Some(F(0.0)));
}

#[test]
fn window_without_an_end_never_closes() {
    let tp = TopicScoreParams {
        mesh_message_deliveries_window: Duration { nanos: u128::MAX },
        ..topic_params()
    };
    let mut s = scores(params_with(tp));
    s.add_peer(peer(1));
    s.add_peer(peer(2));
    s.graft_at(&peer(2), topic(), at(0));
    s.deliver_message_at(&peer(1), &msg(1), &topic(), at(1));
    s.duplicated_message_at(&peer(2), &msg(1), &topic(), at(100));
    assert_eq!(s.mesh_message_deliveries(&peer(2), &topic()), Some(F(1.0)));
}

fn invalid_square(s: &PeerScore<F>, n: u8) -> f64 {
    -score(s, &peer(n))
}

#[test]
fn failed_validation_blames_everybody_who_sent_the_message() {
    let tp = TopicScoreParams { invalid_message_deliveries_weight: F(-1.0), ..topic_params() };
    let mut s = scores(params_with(tp));
    for n in 1..5 {
        s.add_peer(peer(n));
    }
    s.duplicated_message_at(&peer(2), &msg(1), &topic(), at(1));
    s.reject_message_at(&peer(1), &msg(1), &topic(), RejectReason::ValidationFailed, at(1));
    assert_eq!(invalid_square(&s, 1), 1.0);
    assert_eq!(invalid_square(&s, 2), 1.0);
    assert_eq!(invalid_square(&s, 3), 0.0);
    // the message is settled
    s.reject_message_at(&peer(3), &msg(1), &topic(), RejectReason::ValidationFailed, at(1));
    assert_eq!(invalid_square(&s, 3), 0.0);
    // whoever sends it now is to blame, each time
    s.duplicated_message_at(&peer(4), &msg(1), &topic(), at(1));
    s.duplicated_message_at(&peer(4), &msg(1), &topic(), at(1));
    assert_eq!(invalid_square(&s, 4), 4.0);
}

#[test]
fn sender_of_a_duplicate_that_it_also_brought_first_is_blamed_twice() {
    let tp = TopicScoreParams { invalid_message_deliveries_weight: F(-1.0), ..topic_params() };
    let mut s = scores(params_with(tp));
    s.add_peer(peer(1));
    s.duplicated_message_at(&peer(1), &msg(1), &topic(), at(1));
    s.reject_message_at(&peer(1), &msg(1), &topic(), RejectReason::ValidationFailed, at(1));
    assert_eq!(invalid_square(&s, 1), 4.0);
}

#[test]
fn each_reason_to_reject_has_its_effect() {
    let tp = TopicScoreParams { invalid_message_deliveries_weight: F(-1.0), ..topic_params() };
    let mut s = scores(params_with(tp));
    for n in 1..8 {
        s.add_peer(peer(n));
    }
    let now = at(1);
    let error = RejectReason::ValidationError(ValidationError::InvalidSignature);
    s.reject_message_at(&peer(1), &msg(1), &topic(), error, now);
    assert_eq!(invalid_square(&s, 1), 1.0);
    s.reject_message_at(&peer(2), &msg(1), &topic(), RejectReason::SelfOrigin, now);
    assert_eq!(invalid_square(&s, 2), 1.0);
    s.reject_message_at(&peer(3), &msg(1), &topic(), RejectReason::BlackListedPeer, now);
    assert_eq!(invalid_square(&s, 3), 0.0);
    s.reject_message_at(&peer(4), &msg(1), &topic(), RejectReason::BlackListedSource, now);
    assert_eq!(invalid_square(&s, 4), 0.0);
    s.duplicated_message_at(&peer(5), &msg(1), &topic(), now);
    s.reject_message_at(&peer(6), &msg(1), &topic(), RejectReason::ValidationIgnored, now);
    assert_eq!(invalid_square(&s, 5), 0.0);
    assert_eq!(invalid_square(&s, 6), 0.0);
    // an ignored message stays ignored
    s.duplicated_message_at(&peer(7), &msg(1), &topic(), now);
    s.reject_message_at(&peer(7), &msg(1), &topic(), RejectReason::ValidationFailed, now);
    assert_eq!(invalid_square(&s, 5), 0.0);
    assert_eq!(invalid_square(&s, 7), 0.0);
}

#[test]
fn record_lasts_for_two_minutes() {
    let tp = TopicScoreParams { invalid_message_deliveries_weight: F(-1.0), ..topic_params() };
    let mut s = scores(params_with(tp));
    s.add_peer(peer(1));
    s.add_peer(peer(2));
    s.reject_message_at(&peer(1), &msg(1), &topic(), RejectReason::ValidationFailed, at(0));
    s.duplicated_message_at(&peer(2), &msg(1), &topic(), Moment { nanos: 120 * SECOND - 1 });
    assert_eq!(invalid_square(&s, 2), 1.0);
    // the record is gone, and nothing is known of the message
    s.duplicated_message_at(&peer(2), &msg(1), &topic(), at(120));
    assert_eq!(invalid_square(&s, 2), 1.0);
    s.reject_message_at(&peer(1), &msg(1), &topic(), RejectReason::ValidationFailed, at(121));
    assert_eq!(invalid_square(&s, 2), 4.0);
}

#[test]
fn delivery_times_are_reported_of_mesh_peers_only_where_wanted() {
    let params = params_with(topic_params());
    let mut s =
        PeerScore::new_with_message_delivery_time_callback(params, thresholds(), true);
    s.add_peer(peer(1));
    s.add_peer(peer(2));
    s.add_peer(peer(3));
    s.graft_at(&peer(1), topic(), at(0));
    s.graft_at(&peer(2), topic(), at(0));
    assert_eq!(s.validate_message_at(&peer(1), &msg(1), &topic(), at(1)), Some(F(0.0)));
    assert_eq!(s.validate_message_at(&peer(3), &msg(1), &topic(), at(1)), None);
    assert_eq!(s.validate_message_at(&peer(9), &msg(1), &topic(), at(1)), None);
    s.deliver_message_at(&peer(1), &msg(1), &topic(), at(2));
    let later = Moment { nanos: 3 * SECOND + SECOND / 2 };
    assert_eq!(s.duplicated_message_at(&peer(2), &msg(1), &topic(), later), Some(F(1.5)));
    assert_eq!(s.duplicated_message_at(&peer(2), &msg(1), &topic(), later), None);
    assert_eq!(s.duplicated_message_at(&peer(3), &msg(1), &topic(), later), None);
    assert_eq!(s.duplicated_message_at(&peer(2), &msg(2), &topic(), later), Some(F(0.0)));
}

#[test]
fn caps_that_come_down_cut_the_counters() {
    let tp = TopicScoreParams { first_message_deliveries_weight: F(1.0), ..topic_params() };
    let mut s = scores(params_with(tp));
    s.add_peer(peer(1));
    s.graft_at(&peer(1), topic(), at(0));
    for i in 0..30 {
        s.deliver_message_at(&peer(1), &msg(i), &topic(), at(0));
    }
    let lower = TopicScoreParams {
        first_message_deliveries_cap: F(12.0),
        mesh_message_deliveries_cap: F(8.0),
        ..tp
    };
    s.set_topic_params(topic(), lower);
    assert_eq!(s.mesh_message_deliveries(&peer(1), &topic()), Some(F(8.0)));
    assert_eq!(score(&s, &peer(1)), 12.0);
    // caps that go up again bring nothing back
    s.set_topic_params(topic(), tp);
    assert_eq!(s.mesh_message_deliveries(&peer(1), &topic()), Some(F(8.0)));
    assert_eq!(score(&s, &peer(1)), 12.0);
}

#[test]
fn parameters_of_a_new_topic_make_it_scored() {
    let mut s = scores(params_with(topic_params()));
    assert!(s.get_topic_params(&other_topic()).is_none());
    let tp = TopicScoreParams { topic_weight: F(3.0), ..topic_params() };
    s.set_topic_params(other_topic(), tp);
    assert_eq!(s.get_topic_params(&other_topic()).unwrap().topic_weight, F(3.0));
    s.add_peer(peer(1));
    s.graft_at(&peer(1), other_topic(), at(0));
    assert_eq!(s.mesh_message_deliveries(&peer(1), &other_topic()), Some(F(0.0)));
}

#[test]
fn thresholds_are_compared_with_the_score() {
    let mut s = scores(params_with(topic_params()));
    s.add_peer(peer(1));
    assert!(s.set_application_score(&peer(1), F(-20.0)));
    let state = PeerScoreState::Active(Box::new(s));
    assert_eq!(
        state.below_threshold(&peer(1), |t: &PeerScoreThresholds<F>| t.gossip_threshold),
        (true, F(-20.0))
    );
    assert_eq!(
        state.below_threshold(&peer(1), |t: &PeerScoreThresholds<F>| t.publish_threshold),
        (false, F(-20.0))
    );
    let disabled: PeerScoreState<F> = PeerScoreState::Disabled;
    assert_eq!(
        disabled.below_threshold(&peer(1), |t: &PeerScoreThresholds<F>| t.accept_px_threshold),
        (false, F(0.0))
    );
}

#[test]
fn a_score_that_is_not_a_number_is_kept() {
    let mut s = scores(params_with(topic_params()));
    s.add_peer(peer(1));
    assert!(s.set_application_score(&peer(1), F(f64::NAN)));
    s.remove_peer_at(&peer(1), at(0));
    assert!(s.set_application_score(&peer(1), F(1.0)));
}

#[test]
fn the_clock_drives_the_same_rules() {
    let mut params = params_with(topic_params());
    params.retain_score = Duration { nanos: 0 };
    let mut s = scores(params);
    s.add_peer(peer(1));
    s.add_peer(peer(2));
    s.graft(&peer(1), topic());
    s.graft(&peer(2), topic());
    assert_eq!(s.validate_message(&peer(1), &msg(1), &topic()), None);
    assert_eq!(s.duplicated_message(&peer(2), &msg(1), &topic()), None);
    s.deliver_message(&peer(1), &msg(1), &topic());
    assert_eq!(s.mesh_message_deliveries(&peer(1), &topic()), Some(F(1.0)));
    assert_eq!(s.mesh_message_deliveries(&peer(2), &topic()), Some(F(1.0)));
    s.reject_message(&peer(2), &msg(2), &topic(), RejectReason::ValidationFailed);
    s.remove_peer(&peer(2));
    // the retention period is over as soon as the clock has moved on
    let mut tries: u64 = 0;
    while s.set_application_score(&peer(2), F(0.0)) && tries < 100_000_000 {
        tries += 1;
    }
    assert!(!s.set_application_score(&peer(2), F(-7.0)));
    assert!(s.set_application_score(&peer(1), F(-7.0)));
    assert_eq!(s.mesh_message_deliveries(&peer(2), &topic()), Some(F(1.0)));
    // its counters are thrown away by a refresh, those of the other one are not
    s.refresh_scores();
    assert_eq!(s.mesh_message_deliveries(&peer(2), &topic()), None);
    assert_eq!(score(&s, &peer(1)), -7.0);
}
