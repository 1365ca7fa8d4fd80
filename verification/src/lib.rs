//! A privilege-separated load-balancer and health-checking daemon library.
//!
//! A single configuration, written in a small domain-specific language,
//! drives a fixed set of cooperating process roles that monitor backend
//! host reachability and exchange typed messages over numbered peer
//! channels.

pub mod config;
pub mod error;
pub mod health;
pub mod message;
pub mod parent;

use vstd::prelude::*;

verus! {

/// Default health check interval, in seconds.
pub const CHECK_INTERVAL_SECS: u64 = 10;
/// Default health check timeout, in milliseconds.
pub const CHECK_TIMEOUT_MILLIS: u64 = 200;

/// Default configuration file path.
pub fn relayd_config_path() -> (r: &'static str)
    ensures
        r@ == "/etc/relayd.conf"@,
{
    "/etc/relayd.conf"
}

/// Default control socket path.
pub fn relayd_socket_path() -> (r: &'static str)
    ensures
        r@ == "/var/run/relayd.sock"@,
{
    "/var/run/relayd.sock"
}

/// The fixed, closed set of process roles.
///
/// The parent implicitly reaches (and is reached by) every role; the
/// health-check engine additionally has direct channels to the redirect
/// and relay roles for low-latency event delivery.
#[derive(Clone, Copy, Debug, PartialEq, Eq, Structural)]
pub enum Privsep {
    /// Parent process.
    Parent,
    /// Health check engine.
    Health,
    /// Packet filter engine.
    Redirect,
    /// L7 relays.
    Relay,
}

/// Channel index of the parent process.
pub const PARENT_ID: usize = 0;
/// Channel index of the health process.
pub const HEALTH_ID: usize = 1;
/// Channel index of the redirect process.
pub const REDIRECT_ID: usize = 2;
/// Channel index of the relay process.
pub const RELAY_ID: usize = 3;
/// Total number of process roles; channels live in an array of this size.
pub const PROCESS_COUNT: usize = 4;

impl Privsep {
    /// The static channel index of this role.
    pub open spec fn spec_id(self) -> usize {
        match self {
            Privsep::Parent => PARENT_ID,
            Privsep::Health => HEALTH_ID,
            Privsep::Redirect => REDIRECT_ID,
            Privsep::Relay => RELAY_ID,
        }
    }

    /// The static channel index of this role.
    pub fn id(self) -> (r: usize)
        ensures
            r == self.spec_id(),
            r < PROCESS_COUNT,
    {
        match self {
            Privsep::Parent => PARENT_ID,
            Privsep::Health => HEALTH_ID,
            Privsep::Redirect => REDIRECT_ID,
            Privsep::Relay => RELAY_ID,
        }
    }

    /// Whether this role has a direct channel to `peer`.
    ///
    /// The parent connects to every other role; the health engine
    /// additionally connects to the redirect and relay roles.
    pub open spec fn spec_connects(self, peer: Privsep) -> bool {
        if self == peer {
            false
        } else {
            self == Privsep::Parent || peer == Privsep::Parent || self == Privsep::Health
                || peer == Privsep::Health
        }
    }

    /// Whether this role has a direct channel to `peer`.
    pub fn connects(self, peer: Privsep) -> (r: bool)
        ensures
            r == self.spec_connects(peer),
    {
        if self == peer {
            false
        } else {
            match (self, peer) {
                (Privsep::Parent, _) => true,
                (_, Privsep::Parent) => true,
                (Privsep::Health, _) => true,
                (_, Privsep::Health) => true,
                _ => false,
            }
        }
    }
}

} // verus!
