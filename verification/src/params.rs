//! The parameters that the scoring rules run on.
use crate::ids::{IpAddr, TopicHash};
use crate::table::{KeySet, Table};
use crate::time::Duration;
use vstd::prelude::*;

verus! {

/// How one topic is scored.
pub struct TopicScoreParams<N> {
    /// The weight of the topic in the score of a peer.
    pub topic_weight: N,
    /// P1: the weight of the time in the mesh.
    pub time_in_mesh_weight: N,
    /// P1: the time in the mesh that counts one.
    pub time_in_mesh_quantum: Duration,
    /// P1: the most that the time in the mesh counts.
    pub time_in_mesh_cap: N,
    /// P2: the weight of first message deliveries.
    pub first_message_deliveries_weight: N,
    /// P2: what first message deliveries decay by.
    pub first_message_deliveries_decay: N,
    /// P2: the most that first message deliveries count.
    pub first_message_deliveries_cap: N,
    /// P3: the weight of a deficit of mesh message deliveries.
    pub mesh_message_deliveries_weight: N,
    /// P3: what mesh message deliveries decay by.
    pub mesh_message_deliveries_decay: N,
    /// P3: the most that mesh message deliveries count.
    pub mesh_message_deliveries_cap: N,
    /// P3: the deliveries under which there is a deficit.
    pub mesh_message_deliveries_threshold: N,
    /// P3: how long after its validation a message still counts as delivered.
    pub mesh_message_deliveries_window: Duration,
    /// P3: the time in the mesh after which a deficit counts.
    pub mesh_message_deliveries_activation: Duration,
    /// P3b: the weight of mesh failures.
    pub mesh_failure_penalty_weight: N,
    /// P3b: what mesh failures decay by.
    pub mesh_failure_penalty_decay: N,
    /// P4: the weight of invalid messages.
    pub invalid_message_deliveries_weight: N,
    /// P4: what invalid messages decay by.
    pub invalid_message_deliveries_decay: N,
}

impl<N: Copy> Copy for TopicScoreParams<N> {

}

impl<N: Copy> Clone for TopicScoreParams<N> {
    fn clone(&self) -> (r: Self)
        ensures
            r == *self,
    {
        *self
    }
}

/// How peers are scored.
pub struct PeerScoreParams<N> {
    /// The topics that are scored.
    pub topics: Table<TopicHash, TopicScoreParams<N>>,
    /// The most that all topics together count; no limit where it is not positive.
    pub topic_score_cap: N,
    /// P5: the weight of the score that the application assigns.
    pub app_specific_weight: N,
    /// P6: the weight of peers that share an address.
    pub ip_colocation_factor_weight: N,
    /// P6: the number of peers over which sharing an address counts.
    pub ip_colocation_factor_threshold: N,
    /// P6: the addresses that may be shared freely.
    pub ip_colocation_factor_whitelist: KeySet<IpAddr>,
    /// P7: the weight of misbehaviour.
    pub behaviour_penalty_weight: N,
    /// P7: the misbehaviour over which it counts.
    pub behaviour_penalty_threshold: N,
    /// P7: what misbehaviour decays by.
    pub behaviour_penalty_decay: N,
    /// The time between two decays.
    pub decay_interval: Duration,
    /// The value under which a decayed counter is taken for zero.
    pub decay_to_zero: N,
    /// How long the counters of a peer are kept after it has left.
    pub retain_score: Duration,
    /// The weight of slowness.
    pub slow_peer_weight: N,
    /// The slowness over which it counts.
    pub slow_peer_threshold: N,
    /// What slowness decays by.
    pub slow_peer_decay: N,
}

/// What [`PeerScoreParams`] say.
#[verifier::ext_equal]
pub struct ParamsView<N> {
    pub topics: Map<Seq<char>, TopicScoreParams<N>>,
    pub topic_score_cap: N,
    pub app_specific_weight: N,
    pub ip_colocation_factor_weight: N,
    pub ip_colocation_factor_threshold: N,
    pub ip_colocation_factor_whitelist: Set<IpAddr>,
    pub behaviour_penalty_weight: N,
    pub behaviour_penalty_threshold: N,
    pub behaviour_penalty_decay: N,
    pub decay_interval: Duration,
    pub decay_to_zero: N,
    pub retain_score: Duration,
    pub slow_peer_weight: N,
    pub slow_peer_threshold: N,
    pub slow_peer_decay: N,
}

impl<N> View for PeerScoreParams<N> {
    type V = ParamsView<N>;

    open spec fn view(&self) -> ParamsView<N> {
        ParamsView {
            topics: self.topics@,
            topic_score_cap: self.topic_score_cap,
            app_specific_weight: self.app_specific_weight,
            ip_colocation_factor_weight: self.ip_colocation_factor_weight,
            ip_colocation_factor_threshold: self.ip_colocation_factor_threshold,
            ip_colocation_factor_whitelist: self.ip_colocation_factor_whitelist@.dom(),
            behaviour_penalty_weight: self.behaviour_penalty_weight,
            behaviour_penalty_threshold: self.behaviour_penalty_threshold,
            behaviour_penalty_decay: self.behaviour_penalty_decay,
            decay_interval: self.decay_interval,
            decay_to_zero: self.decay_to_zero,
            retain_score: self.retain_score,
            slow_peer_weight: self.slow_peer_weight,
            slow_peer_threshold: self.slow_peer_threshold,
            slow_peer_decay: self.slow_peer_decay,
        }
    }
}

impl<N> PeerScoreParams<N> {
    /// The tables are tables.
    pub open spec fn wf(&self) -> bool {
        &&& self.topics.wf()
        &&& self.ip_colocation_factor_whitelist.wf()
    }
}

/// The scores under which a peer is treated worse, and over which it is treated better.
pub struct PeerScoreThresholds<N> {
    /// Below this, no gossip is exchanged with the peer.
    pub gossip_threshold: N,
    /// Below this, own messages are not published to the peer.
    pub publish_threshold: N,
    /// Below this, the peer is ignored altogether.
    pub graylist_threshold: N,
    /// From this on, the peer may suggest other peers.
    pub accept_px_threshold: N,
    /// A median of the mesh below this calls for better peers.
    pub opportunistic_graft_threshold: N,
}

impl<N: Copy> Copy for PeerScoreThresholds<N> {

}

impl<N: Copy> Clone for PeerScoreThresholds<N> {
    fn clone(&self) -> (r: Self)
        ensures
            r == *self,
    {
        *self
    }
}

} // verus!
