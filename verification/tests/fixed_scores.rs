//! Fixed-point numbers, the tables, the cache and the clock.
use libp2p_identity::PeerId;
use peer_score::{
    Clock, DeliveryRecord, DeliveryStatus, Duration, Fixed, IpAddr, Key, MessageId, MeshStatus,
    Moment, Number, PeerScore, PeerScoreParams, PeerScoreThresholds, PeerStats, Table, TimeCache,
    TopicHash, TopicScoreParams, TopicStats, CLOCK_LIMIT,
};

fn fx(micros: i64) -> Fixed {
    Fixed { micros }
}

fn peer(n: u8) -> PeerId {
    PeerId::from_bytes(&[0, 1, n]).unwrap()
}

#[test]
fn fixed_arithmetic() {
    assert_eq!(Fixed::of_count(3), fx(3_000_000));
    assert_eq!(Fixed::of_count(usize::MAX), fx(i64::MAX));
    assert_eq!(Fixed::seconds(Duration { nanos: 1_500_000_999 }), fx(1_500_000));
    assert_eq!(Fixed::seconds(Duration { nanos: u128::MAX }), fx(i64::MAX));
    assert_eq!(fx(1).plus(fx(2)), fx(3));
    assert_eq!(fx(i64::MAX).plus(fx(1)), fx(i64::MAX));
    assert_eq!(fx(1).minus(fx(2)), fx(-1));
    assert_eq!(fx(i64::MIN).minus(fx(1)), fx(i64::MIN));
    assert_eq!(fx(1_500_000).times(fx(-2_000_000)), fx(-3_000_000));
    assert_eq!(fx(-3).times(fx(500_000)), fx(-1));
    assert_eq!(fx(i64::MIN).times(fx(i64::MIN)), fx(i64::MAX));
    assert_eq!(fx(i64::MIN).times(fx(i64::MAX)), fx(i64::MIN));
    assert_eq!(fx(-7_000_000).over(fx(2_000_000)), fx(-3_500_000));
    assert_eq!(fx(1).over(fx(0)), fx(i64::MAX));
    assert_eq!(fx(-1).over(fx(0)), fx(i64::MIN));
    assert_eq!(fx(0).over(fx(0)), fx(0));
    assert!(fx(-1).below(fx(0)));
    assert!(!fx(0).below(fx(0)));
    assert!(fx(5).same(fx(5)));
}

#[test]
fn fixed_scores() {
    let z = fx(0);
    let params = PeerScoreParams {
        topics: Table::new(),
        topic_score_cap: z,
        app_specific_weight: fx(1_000_000),
        ip_colocation_factor_weight: fx(-500_000),
        ip_colocation_factor_threshold: fx(1_000_000),
        ip_colocation_factor_whitelist: Table::new(),
        behaviour_penalty_weight: fx(-1_000_000),
        behaviour_penalty_threshold: z,
        behaviour_penalty_decay: fx(500_000),
        decay_interval: Duration::from_secs(1),
        decay_to_zero: fx(10_000),
        retain_score: Duration::from_secs(1),
        slow_peer_weight: z,
        slow_peer_threshold: z,
        slow_peer_decay: z,
    };
    let thresholds = PeerScoreThresholds {
        gossip_threshold: z,
        publish_threshold: z,
        graylist_threshold: z,
        accept_px_threshold: z,
        opportunistic_graft_threshold: z,
    };
    let mut s = PeerScore::new(params, thresholds);
    s.add_ip(&peer(1), IpAddr::V4(1));
    s.add_ip(&peer(2), IpAddr::V4(1));
    s.add_ip(&peer(3), IpAddr::V4(1));
    s.add_penalty(&peer(1), 3);
    assert_eq!(s.score_report(&peer(1)).score, fx(-11_000_000));
    s.refresh_scores_at(Moment { nanos: 0 });
    assert_eq!(s.score_report(&peer(1)).score, fx(-4_250_000));
}

const SECOND: u128 = 1_000_000_000;

fn topic() -> TopicHash {
    TopicHash { hash: String::from("topic") }
}

fn topic_params(first_cap: i64, mesh_cap: i64) -> TopicScoreParams<Fixed> {
    let z = fx(0);
    TopicScoreParams {
        topic_weight: fx(1_000_000),
        time_in_mesh_weight: z,
        time_in_mesh_quantum: Duration::from_secs(1),
        time_in_mesh_cap: z,
        first_message_deliveries_weight: fx(2_000_000),
        first_message_deliveries_decay: fx(500_000),
        first_message_deliveries_cap: fx(first_cap),
        mesh_message_deliveries_weight: z,
        mesh_message_deliveries_decay: fx(500_000),
        mesh_message_deliveries_cap: fx(mesh_cap),
        mesh_message_deliveries_threshold: fx(5_000_000),
        mesh_message_deliveries_window: Duration::from_secs(1),
        mesh_message_deliveries_activation: Duration::from_secs(1),
        mesh_failure_penalty_weight: fx(-1_000_000),
        mesh_failure_penalty_decay: fx(500_000),
        invalid_message_deliveries_weight: z,
        invalid_message_deliveries_decay: z,
    }
}

fn fixed_peers(topic_score_cap: i64, tp: TopicScoreParams<Fixed>) -> PeerScore<Fixed> {
    let z = fx(0);
    let mut topics = Table::new();
    topics.insert(topic(), tp);
    let params = PeerScoreParams {
        topics,
        topic_score_cap: fx(topic_score_cap),
        app_specific_weight: fx(1_000_000),
        ip_colocation_factor_weight: fx(-1_000_000),
        ip_colocation_factor_threshold: fx(1_000_000),
        ip_colocation_factor_whitelist: Table::new(),
        behaviour_penalty_weight: fx(-1_000_000),
        behaviour_penalty_threshold: z,
        behaviour_penalty_decay: fx(500_000),
        decay_interval: Duration::from_secs(1),
        decay_to_zero: fx(10_000),
        retain_score: Duration::from_secs(10),
        slow_peer_weight: fx(-1_000_000),
        slow_peer_threshold: z,
        slow_peer_decay: z,
    };
    let thresholds = PeerScoreThresholds {
        gossip_threshold: z,
        publish_threshold: z,
        graylist_threshold: z,
        accept_px_threshold: z,
        opportunistic_graft_threshold: z,
    };
    PeerScore::new(params, thresholds)
}

#[test]
fn no_score_is_above_the_cap_on_topics() {
    let mut s = fixed_peers(3_000_000, topic_params(100_000_000, 100_000_000));
    s.add_ip(&peer(1), IpAddr::V4(1));
    for n in 0..9 {
        s.deliver_message_at(&peer(1), &MessageId(vec![n]), &topic(), Moment { nanos: 0 });
    }
    assert_eq!(s.score_report(&peer(1)).score, fx(3_000_000));
    s.add_ip(&peer(2), IpAddr::V4(1));
    assert_eq!(s.score_report(&peer(1)).score, fx(2_000_000));
    s.failed_message_slow_peer(&peer(1));
    s.add_penalty(&peer(1), 2);
    assert_eq!(s.score_report(&peer(1)).score, fx(-3_000_000));
}

#[test]
fn counters_stay_under_their_caps() {
    let mut s = fixed_peers(0, topic_params(4_000_000, 2_000_000));
    s.add_peer(peer(1));
    s.graft_at(&peer(1), topic(), Moment { nanos: 0 });
    for n in 0..9 {
        s.deliver_message_at(&peer(1), &MessageId(vec![n]), &topic(), Moment { nanos: 0 });
    }
    assert_eq!(s.mesh_message_deliveries(&peer(1), &topic()), Some(fx(2_000_000)));
    assert_eq!(s.score_report(&peer(1)).score, fx(8_000_000));
    // a peer that has left is held to new caps, too
    assert!(s.set_application_score_at(&peer(1), fx(-9_000_000), Moment { nanos: 0 }));
    s.remove_peer_at(&peer(1), Moment { nanos: 0 });
    s.set_topic_params(topic(), topic_params(4_000_000, 1_500_000));
    assert_eq!(s.mesh_message_deliveries(&peer(1), &topic()), Some(fx(1_500_000)));
    s.add_peer(peer(1));
    s.refresh_scores_at(Moment { nanos: SECOND });
    assert_eq!(s.mesh_message_deliveries(&peer(1), &topic()), Some(fx(750_000)));
}

#[test]
fn penalties_add_up_in_millionths() {
    let mut apart = fixed_peers(0, topic_params(0, 0));
    let mut at_once = fixed_peers(0, topic_params(0, 0));
    apart.add_peer(peer(1));
    at_once.add_peer(peer(1));
    apart.add_penalty(&peer(1), 2);
    apart.add_penalty(&peer(1), 3);
    at_once.add_penalty(&peer(1), 5);
    assert_eq!(apart.score_report(&peer(1)).score, fx(-25_000_000));
    assert_eq!(at_once.score_report(&peer(1)).score, fx(-25_000_000));
    // an unknown peer is not counted
    apart.add_penalty(&peer(2), 5);
    apart.add_peer(peer(2));
    assert_eq!(apart.score_report(&peer(2)).score, fx(0));
}

#[test]
fn mesh_failures_outlast_an_absence() {
    let mut s = fixed_peers(0, topic_params(0, 0));
    s.add_peer(peer(1));
    s.graft_at(&peer(1), topic(), Moment { nanos: 0 });
    s.refresh_scores_at(Moment { nanos: 2 * SECOND });
    s.prune(&peer(1), topic());
    assert_eq!(s.score_report(&peer(1)).score, fx(-25_000_000));
    s.graft_at(&peer(1), topic(), Moment { nanos: 2 * SECOND });
    s.refresh_scores_at(Moment { nanos: 4 * SECOND });
    assert_eq!(s.score_report(&peer(1)).score, fx(-12_500_000));
    s.remove_peer_at(&peer(1), Moment { nanos: 4 * SECOND });
    s.refresh_scores_at(Moment { nanos: 9 * SECOND });
    s.refresh_scores_at(Moment { nanos: 14 * SECOND });
    s.add_peer(peer(1));
    assert_eq!(s.score_report(&peer(1)).score, fx(-37_500_000));
}

#[test]
fn tables_keep_their_order() {
    let mut t: Table<MessageId, u32> = Table::new();
    t.insert(MessageId(vec![1]), 10);
    t.insert(MessageId(vec![1, 2]), 20);
    t.insert(MessageId(vec![3]), 30);
    t.insert(MessageId(vec![1, 2]), 21);
    assert_eq!(t.len(), 3);
    assert_eq!(*t.value_at(1), 21);
    assert_eq!(t.key_at(2).0, vec![3]);
    assert_eq!(t.get(&MessageId(vec![9])), None);
    assert_eq!(t.remove(&MessageId(vec![1])), Some(10));
    assert_eq!(t.remove(&MessageId(vec![1])), None);
    assert_eq!(*t.value_at(0), 21);
    *t.get_or_insert_mut(MessageId(vec![4]), 40) += 1;
    *t.get_or_insert_mut(MessageId(vec![4]), 50) += 1;
    assert_eq!(t.get(&MessageId(vec![4])), Some(&42));
    if let Some(v) = t.get_mut(&MessageId(vec![3])) {
        *v = 31;
    }
    *t.value_at_mut(0) = 22;
    let (key, value) = t.remove_at(0);
    assert_eq!((key.0, value), (vec![1, 2], 22));
    assert_eq!(t.get(&MessageId(vec![3])), Some(&31));
    assert!(t.contains_key(&MessageId(vec![4])));
}

#[test]
fn keys_are_told_apart() {
    assert!(peer(1).same(&peer(1)));
    assert!(!peer(1).same(&peer(2)));
    assert!(peer(1).duplicate().same(&peer(1)));
    let a = TopicHash { hash: String::from("a") };
    let b = TopicHash { hash: String::from("b") };
    assert!(a.same(&a.duplicate()));
    assert!(!a.same(&b));
    assert!(!MessageId(vec![1]).same(&MessageId(vec![1, 1])));
    assert!(!MessageId(vec![1, 2]).same(&MessageId(vec![1, 1])));
    assert!(!IpAddr::V4(1).same(&IpAddr::V6(1)));
}

#[test]
fn cache_entries_last_from_their_first_use() {
    let mut cache: TimeCache<MessageId, u32> = TimeCache::new(Duration { nanos: 10 });
    *cache.entry_or(MessageId(vec![1]), 1, Moment { nanos: 0 }) += 1;
    *cache.entry_or(MessageId(vec![2]), 5, Moment { nanos: 4 }) += 1;
    assert_eq!(*cache.entry_or(MessageId(vec![1]), 7, Moment { nanos: 9 }), 2);
    assert_eq!(*cache.entry_or(MessageId(vec![1]), 7, Moment { nanos: 10 }), 7);
    assert_eq!(*cache.entry_or(MessageId(vec![2]), 8, Moment { nanos: 13 }), 6);
    assert_eq!(*cache.entry_or(MessageId(vec![2]), 8, Moment { nanos: 14 }), 8);
}

#[test]
fn fresh_counters_are_zero() {
    let stats: TopicStats<Fixed> = TopicStats::default();
    assert!(!stats.in_mesh());
    assert_eq!(stats.first_message_deliveries, fx(0));
    let peer_stats: PeerStats<Fixed> = PeerStats::default();
    assert_eq!(peer_stats.topics.len(), 0);
    assert_eq!(peer_stats.known_ips.len(), 0);
    assert_eq!(peer_stats.behaviour_penalty, fx(0));
    let now = Moment { nanos: 3 };
    assert_eq!(
        MeshStatus::new_active(now),
        MeshStatus::Active { graft_time: now, mesh_time: Duration { nanos: 0 } }
    );
    let record = DeliveryRecord::new(now);
    assert_eq!(record.status, DeliveryStatus::Unknown);
    assert_eq!(record.first_seen, now);
    assert_eq!(record.peers.len(), 0);
}

#[test]
fn moments_and_spans() {
    let early = Moment { nanos: 5 };
    let late = Moment { nanos: 12 };
    assert_eq!(late.duration_since(early), Duration { nanos: 7 });
    assert_eq!(early.duration_since(late), Duration { nanos: 0 });
    assert_eq!(early.checked_add(Duration { nanos: 7 }), Some(late));
    assert_eq!(early.checked_add(Duration { nanos: u128::MAX }), None);
    assert_eq!(Duration::from_secs(2), Duration { nanos: 2_000_000_000 });
}

#[test]
fn the_clock_runs() {
    let clock = Clock::start();
    let first = clock.now();
    assert!(first.nanos <= CLOCK_LIMIT);
    let mut readings: u64 = 0;
    let mut last = clock.now();
    while last.nanos == first.nanos && readings < 100_000_000 {
        last = clock.now();
        readings += 1;
    }
    assert!(last.nanos > first.nanos);
}
