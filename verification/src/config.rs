//! The settings of a peer manager.

use vstd::prelude::*;

verus! {

/// The seconds between two heartbeats, unless set otherwise.
pub const DEFAULT_HEARTBEAT_INTERVAL: u64 = 30;

/// The target number of peers, unless set otherwise.
pub const DEFAULT_TARGET_PEERS: usize = 50;

/// The seconds after which a peer is asked for its status again, unless set
/// otherwise.
pub const DEFAULT_STATUS_INTERVAL: u64 = 300;

/// The seconds after which a peer that dialed this node is pinged, unless
/// set otherwise.
pub const DEFAULT_PING_INTERVAL_INBOUND: u64 = 15;

/// The seconds after which a peer that this node dialed is pinged, unless
/// set otherwise.
pub const DEFAULT_PING_INTERVAL_OUTBOUND: u64 = 20;

/// The settings of a peer manager. Intervals are in seconds.
#[derive(Clone, Copy, Debug, PartialEq, Eq, Structural)]
pub struct Config {
    /// The time between two heartbeats.
    pub heartbeat_interval: u64,
    /// Whether more peers are looked for when there are too few.
    pub discovery_enabled: bool,
    /// Whether figures are reported.
    pub metrics_enabled: bool,
    /// The number of peers the node wants to be connected with.
    pub target_peer_count: usize,
    /// The time after which a peer is asked for its status again.
    pub status_interval: u64,
    /// The time after which a peer that dialed this node is pinged.
    pub ping_interval_inbound: u64,
    /// The time after which a peer that this node dialed is pinged.
    pub ping_interval_outbound: u64,
}

/// Why a peer manager cannot be made.
#[derive(Clone, Copy, Debug, PartialEq, Eq, Structural)]
pub enum ConfigError {
    /// An interval is zero.
    ConfigInvalid,
}

impl Config {
    /// No interval is zero.
    pub open spec fn valid(&self) -> bool {
        &&& self.heartbeat_interval > 0
        &&& self.status_interval > 0
        &&& self.ping_interval_inbound > 0
        &&& self.ping_interval_outbound > 0
    }

    /// Whether no interval is zero.
    pub fn is_valid(&self) -> (valid: bool)
        ensures
            valid == self.valid(),
    {
        self.heartbeat_interval > 0 && self.status_interval > 0 && self.ping_interval_inbound > 0
            && self.ping_interval_outbound > 0
    }
}

impl Default for Config {
    fn default() -> (config: Config)
        ensures
            config == (Config {
                heartbeat_interval: DEFAULT_HEARTBEAT_INTERVAL,
                discovery_enabled: true,
                metrics_enabled: false,
                target_peer_count: DEFAULT_TARGET_PEERS,
                status_interval: DEFAULT_STATUS_INTERVAL,
                ping_interval_inbound: DEFAULT_PING_INTERVAL_INBOUND,
                ping_interval_outbound: DEFAULT_PING_INTERVAL_OUTBOUND,
            }),
            config.valid(),
    {
        Config {
            heartbeat_interval: DEFAULT_HEARTBEAT_INTERVAL,
            discovery_enabled: true,
            metrics_enabled: false,
            target_peer_count: DEFAULT_TARGET_PEERS,
            status_interval: DEFAULT_STATUS_INTERVAL,
            ping_interval_inbound: DEFAULT_PING_INTERVAL_INBOUND,
            ping_interval_outbound: DEFAULT_PING_INTERVAL_OUTBOUND,
        }
    }
}

} // verus!
