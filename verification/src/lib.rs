//! Peer management for a node of a gossip and request/response overlay network.
//!
//! The crate decides which remote peers the node keeps connections with. It
//! scores peers by their behaviour, walks every peer through a connection
//! life cycle (dialing, connected, disconnecting, disconnected, banned) and
//! tells the transport below, through a queue of events, whom to dial, ping,
//! disconnect, ban and unban.
//!
//! Time is a count of seconds on a monotonic clock that the caller reads;
//! scores are fixed-point numbers (see [`score::SCORE_UNIT`]).

pub mod banned;
pub mod capacity;
pub mod client;
pub mod config;
pub mod events;
pub mod laws;
pub mod manager;
pub mod metrics;
pub mod peer_info;
pub mod peerdb;
pub mod prune;
pub mod rpc;
pub mod score;
pub mod timers;
pub mod types;

pub use events::PeerManagerEvent;
pub use manager::PeerManager;
