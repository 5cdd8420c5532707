//! Scoring of the peers of a gossip mesh.
//!
//! A peer gains by delivering messages first and by staying in the meshes of the topics it serves.
//! It loses by delivering too little, by delivering invalid messages, by sharing its address with
//! too many others, by misbehaving and by being slow. [`PeerScore`] keeps the counters from which
//! a peer's score is computed, and is told of every event that changes them.
//!
//! The rules are stated as mathematics in [`model`]: a state, the score of a peer in it, and the
//! state after each event. Every method of [`PeerScore`] is proved to be one of these events or
//! to compute one of these values. What follows from the rules is proved as laws: [`effects`] holds
//! what each event does, told by what is there before and after it, [`worth`] what scores are made
//! of, [`basics`] what the building blocks say, and [`laws`] what holds across events. [`bounds`]
//! holds what follows where the numbers keep an order, as those of [`fixed`] do by [`fixed_laws`],
//! and [`upkeep`] that every event keeps the state consistent.

pub mod basics;
pub mod bounds;
pub mod delivery;
pub mod effects;
pub mod fixed;
pub mod fixed_laws;
pub mod ids;
pub mod laws;
pub mod model;
pub mod number;
pub mod params;
pub mod peer_score;
pub mod reason;
pub mod stats;
pub mod table;
pub mod time;
pub mod upkeep;
pub mod worth;

pub use delivery::{DeliveryRecord, DeliveryStatus, TimeCache};
pub use fixed::Fixed;
pub use ids::{IpAddr, Key, MessageId, TopicHash};
pub use model::TIME_CACHE_DURATION;
pub use number::Number;
pub use params::{PeerScoreParams, PeerScoreThresholds, TopicScoreParams};
pub use peer_score::{PeerScore, PeerScoreReport, PeerScoreState};
pub use reason::{Penalty, RejectReason, ValidationError};
pub use stats::{ConnectionStatus, MeshStatus, PeerStats, TopicStats};
pub use table::{KeySet, Table};
pub use time::{Clock, Duration, Moment, CLOCK_LIMIT};
