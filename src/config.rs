//! The validated configuration that the load balancer is built from.
use crate::address::{IpAddress, SocketAddress};
use crate::errors::PeerError;
use crate::peer::{from_config_outcome, Coordinate, Peer};
use crate::security::Security;
use crate::target::NetworkTarget;
use core::time::Duration;
use vstd::prelude::*;

verus! {

/// The span of `secs` whole seconds.
pub uninterp spec fn duration_of_secs(secs: u64) -> Duration;

/// Relies on `Duration::from_secs`: the result depends on the seconds alone.
pub assume_specification[ core::time::Duration::from_secs ](secs: u64) -> (r: Duration)
    ensures
        r == duration_of_secs(secs),
;

pub const LOG_FILE_SIZE_HARD_LIMIT_MB: usize = 10;

pub const BYTES_PER_MEGABYTE: usize = 1048576;

pub const DEFAULT_PORT: u16 = 9220;

#[derive(Clone, Copy, Debug, PartialEq, Eq, Structural)]
pub enum LoadBalancerType {
    Application,
    Network,
}

#[derive(Clone, Copy, Debug, PartialEq, Eq, Structural)]
pub enum LoadBalancerStrategy {
    RoundRobin,
    LeastUsed,
    WeightedAverage,
    Geolocation,
}

impl LoadBalancerStrategy {
    /// The name of the strategy in a configuration file.
    pub fn name(&self) -> (r: &'static str)
        ensures
            *self == LoadBalancerStrategy::RoundRobin ==> r@ == "round_robin"@,
            *self == LoadBalancerStrategy::LeastUsed ==> r@ == "least_used"@,
            *self == LoadBalancerStrategy::WeightedAverage ==> r@ == "weighted_average"@,
            *self == LoadBalancerStrategy::Geolocation ==> r@ == "geo"@,
    {
        match self {
            LoadBalancerStrategy::RoundRobin => "round_robin",
            LoadBalancerStrategy::LeastUsed => "least_used",
            LoadBalancerStrategy::WeightedAverage => "weighted_average",
            LoadBalancerStrategy::Geolocation => "geo",
        }
    }
}

#[derive(Clone, Copy, Debug)]
pub struct LoadBalancerConfig {
    pub load_balancer_type: LoadBalancerType,
    pub strategy: LoadBalancerStrategy,
    pub listener_address: Option<IpAddress>,
    pub port: Option<u16>,
    pub max_connections: u32,
    pub max_requests_per_connection: u32,
}

/// One backend group: its options and its peer entries.
#[derive(Debug)]
pub struct BackendOptions {
    pub name: String,
    pub health_endpoint: Option<String>,
    pub health_check_interval_seconds: Option<u32>,
    pub health_check_timeout_seconds: Option<u32>,
    pub failed_request_threshold: Option<u32>,
    pub request_timeout_seconds: Option<u32>,
    pub rate_limit: Option<u64>,
    pub peers: Vec<PeerConfig>,
}

/// The duration of `secs` seconds, where given.
pub open spec fn seconds_duration(secs: Option<u32>) -> Option<Duration> {
    match secs {
        Some(s) => Some(duration_of_secs(s as u64)),
        None => None,
    }
}

fn to_duration(secs: Option<u32>) -> (r: Option<Duration>)
    ensures
        r == seconds_duration(secs),
{
    match secs {
        Some(s) => Some(Duration::from_secs(s as u64)),
        None => None,
    }
}

impl BackendOptions {
    pub fn get_health_check_interval(&self) -> (r: Option<Duration>)
        ensures
            r == seconds_duration(self.health_check_interval_seconds),
    {
        to_duration(self.health_check_interval_seconds)
    }

    pub fn get_health_check_timeout(&self) -> (r: Option<Duration>)
        ensures
            r == seconds_duration(self.health_check_timeout_seconds),
    {
        to_duration(self.health_check_timeout_seconds)
    }

    pub fn get_request_timeout(&self) -> (r: Option<Duration>)
        ensures
            r == seconds_duration(self.request_timeout_seconds),
    {
        to_duration(self.request_timeout_seconds)
    }

    /// The peers of the group, in order; the first entry that cannot be made
    /// a peer fails the whole list.
    pub fn peers(&self) -> (r: Result<Vec<Peer>, PeerError>)
        ensures
            match r {
                Ok(ps) => {
                    &&& ps@.len() == self.peers@.len()
                    &&& forall|i: int|
                        0 <= i < ps@.len() ==> from_config_outcome(
                            self.peers@[i],
                            *self,
                            Ok(#[trigger] ps@[i]),
                        )
                },
                Err(e) => exists|i: int|
                    0 <= i < self.peers@.len() && from_config_outcome(
                        #[trigger] self.peers@[i],
                        *self,
                        Err(e),
                    ),
            },
    {
        let mut peers: Vec<Peer> = Vec::new();
        let mut i: usize = 0;
        while i < self.peers.len()
            invariant
                i <= self.peers@.len(),
                peers@.len() == i,
                forall|j: int|
                    0 <= j < i ==> from_config_outcome(self.peers@[j], *self, Ok(#[trigger] peers@[j])),
            decreases self.peers.len() - i,
        {
            match Peer::from_config(&self.peers[i], self) {
                Ok(peer) => {
                    peers.push(peer);
                },
                Err(e) => {
                    return Err(e);
                },
            }
            i = i + 1;
        }
        Ok(peers)
    }
}

/// One peer entry of a backend group. The coordinate is checked when the
/// peer is built.
#[derive(Debug)]
pub struct PeerConfig {
    pub address: NetworkTarget,
    pub weight: Option<u32>,
    pub coordinates: Option<Coordinate>,
}

impl PeerConfig {
    pub fn get_addr(&self) -> (r: NetworkTarget)
        ensures
            r == self.address,
    {
        self.address.clone()
    }

    pub fn get_weight(&self) -> (r: Option<u32>)
        ensures
            r == self.weight,
    {
        self.weight
    }

    pub fn get_coordinates(&self) -> (r: Option<Coordinate>)
        ensures
            r == self.coordinates,
    {
        self.coordinates
    }
}

#[derive(Clone, Copy, Debug)]
pub struct LoggingConfig {
    pub rotate_logs: bool,
    pub log_capacity_mb: Option<usize>,
}

/// The whole configuration.
#[derive(Debug)]
pub struct Config {
    pub loadbalancer: LoadBalancerConfig,
    pub logging: LoggingConfig,
    pub security: Security,
    pub backend: BackendOptions,
}

impl Config {
    pub fn strategy(&self) -> (r: LoadBalancerStrategy)
        ensures
            r == self.loadbalancer.strategy,
    {
        self.loadbalancer.strategy
    }

    pub fn load_balancer_type(&self) -> (r: LoadBalancerType)
        ensures
            r == self.loadbalancer.load_balancer_type,
    {
        self.loadbalancer.load_balancer_type
    }

    /// The address to listen on; 127.0.0.1 where none is given.
    pub fn ip(&self) -> (r: IpAddress)
        ensures
            r == match self.loadbalancer.listener_address {
                Some(ip) => ip,
                None => IpAddress::V4(127, 0, 0, 1),
            },
    {
        match self.loadbalancer.listener_address {
            Some(ip) => ip,
            None => IpAddress::V4(127, 0, 0, 1),
        }
    }

    /// The port to listen on; 9220 where none is given.
    pub fn port(&self) -> (r: u16)
        ensures
            r == match self.loadbalancer.port {
                Some(p) => p,
                None => DEFAULT_PORT,
            },
    {
        match self.loadbalancer.port {
            Some(p) => p,
            None => DEFAULT_PORT,
        }
    }

    pub fn listener_address(&self) -> (r: SocketAddress)
        ensures
            r.ip == match self.loadbalancer.listener_address {
                Some(ip) => ip,
                None => IpAddress::V4(127, 0, 0, 1),
            },
            r.port == match self.loadbalancer.port {
                Some(p) => p,
                None => DEFAULT_PORT,
            },
    {
        SocketAddress { ip: self.ip(), port: self.port() }
    }

    pub fn rotate_logs(&self) -> (r: bool)
        ensures
            r == self.logging.rotate_logs,
    {
        self.logging.rotate_logs
    }

    /// The largest size of a log file in bytes: the configured megabytes, ten
    /// where none are given, held at the largest `usize`.
    pub fn log_file_max_size(&self) -> (r: usize)
        ensures
            r == match self.logging.log_capacity_mb {
                Some(mb) => if mb * BYTES_PER_MEGABYTE <= usize::MAX {
                    (mb * BYTES_PER_MEGABYTE) as usize
                } else {
                    usize::MAX
                },
                None => (LOG_FILE_SIZE_HARD_LIMIT_MB * BYTES_PER_MEGABYTE) as usize,
            },
    {
        match self.logging.log_capacity_mb {
            Some(mb) => if mb <= usize::MAX / BYTES_PER_MEGABYTE {
                mb * BYTES_PER_MEGABYTE
            } else {
                usize::MAX
            },
            None => LOG_FILE_SIZE_HARD_LIMIT_MB * BYTES_PER_MEGABYTE,
        }
    }
}

} // verus!
