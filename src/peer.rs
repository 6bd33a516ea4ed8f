//! Peers: one backend instance each, with its weight, place and health.
use crate::config::{BackendOptions, PeerConfig};
use crate::errors::{NetworkTargetError, PeerError};
use crate::target::{segment_fits, url_with_segment, NetworkTarget};
use vstd::prelude::*;

verus! {

/// A place on the globe, in millionths of a degree.
#[derive(Clone, Copy, Debug, PartialEq, Eq, Structural)]
pub struct Coordinate {
    pub latitude: i64,
    pub longitude: i64,
}

pub const MAX_LATITUDE: i64 = 90_000_000;

pub const MAX_LONGITUDE: i64 = 180_000_000;

impl Coordinate {
    /// Latitude within [-90, 90] degrees and longitude within [-180, 180].
    pub open spec fn valid(&self) -> bool {
        &&& -MAX_LATITUDE <= self.latitude <= MAX_LATITUDE
        &&& -MAX_LONGITUDE <= self.longitude <= MAX_LONGITUDE
    }

    pub fn is_valid(&self) -> (r: bool)
        ensures
            r == self.valid(),
    {
        -MAX_LATITUDE <= self.latitude && self.latitude <= MAX_LATITUDE && -MAX_LONGITUDE
            <= self.longitude && self.longitude <= MAX_LONGITUDE
    }

    /// A coordinate, refused where either value is out of range.
    pub fn new(latitude: i64, longitude: i64) -> (r: Result<Coordinate, PeerError>)
        ensures
            match r {
                Ok(c) => c.latitude == latitude && c.longitude == longitude && c.valid(),
                Err(e) => e is CoordinateError && !(Coordinate { latitude, longitude }).valid(),
            },
    {
        let c = Coordinate { latitude, longitude };
        if c.is_valid() {
            Ok(c)
        } else {
            Err(PeerError::CoordinateError)
        }
    }
}

/// What a connection attempt to a peer came to.
#[derive(Clone, Copy, Debug, PartialEq, Eq, Structural)]
pub enum ConnectAttempt {
    Connected,
    TimedOut,
    Failed,
}

/// The result of a health probe.
#[derive(Clone, Copy, Debug, PartialEq, Eq, Structural)]
pub enum ProbeOutcome {
    Healthy,
    Unreachable,
}

/// One backend instance. The health flag is false until a probe completes,
/// and then holds the outcome of the most recent one.
#[derive(Debug)]
pub struct Peer {
    pub healthy: bool,
    pub health_endpoint: Option<NetworkTarget>,
    pub address: NetworkTarget,
    pub weight: u32,
    pub coordinates: Option<Coordinate>,
}

/// `h` is the health target made from `address` and the configured path: the
/// URL with the path appended, or the socket address itself.
pub open spec fn health_joined(address: NetworkTarget, path: Seq<char>, h: NetworkTarget) -> bool {
    match address {
        NetworkTarget::SocketAddr(_) => h == address,
        NetworkTarget::Url(u) => {
            &&& segment_fits(u.text_view(), path)
            &&& url_with_segment(u.text_view(), path) is Some
            &&& h matches NetworkTarget::Url(v)
            &&& h->Url_0.text_view() == url_with_segment(u.text_view(), path)->0
            &&& h->Url_0.port_view() == u.port_view()
            &&& h->Url_0.host_view() == u.host_view()
        },
    }
}

/// The configured path cannot be appended to `address`, and `e` says so.
pub open spec fn health_join_fails(address: NetworkTarget, path: Seq<char>, e: PeerError) -> bool {
    match address {
        NetworkTarget::SocketAddr(_) => false,
        NetworkTarget::Url(u) => if !segment_fits(u.text_view(), path) {
            e matches PeerError::InvalidHealthEndpointError(NetworkTargetError::PathTooLong)
        } else {
            &&& url_with_segment(u.text_view(), path) is None
            &&& e matches PeerError::InvalidHealthEndpointError(
                NetworkTargetError::InvalidUrlBase(m),
            )
            &&& e->InvalidHealthEndpointError_0->InvalidUrlBase_0@ == u.text_view()
        },
    }
}

/// The weight of a peer entry: as given, one where none is given.
pub open spec fn weight_or_default(w: Option<u32>) -> u32 {
    match w {
        Some(w) => w,
        None => 1,
    }
}

/// The coordinate of a peer entry is absent or in range.
pub open spec fn coordinates_valid(c: Option<Coordinate>) -> bool {
    match c {
        Some(c) => c.valid(),
        None => true,
    }
}

/// What building a peer from entry `o` of backend group `b` gives.
pub open spec fn from_config_outcome(o: PeerConfig, b: BackendOptions, r: Result<Peer, PeerError>) -> bool {
    let w = weight_or_default(o.weight);
    match r {
        Ok(p) => {
            &&& w >= 1
            &&& coordinates_valid(o.coordinates)
            &&& !p.healthy
            &&& p.address == o.address
            &&& p.weight == w
            &&& p.coordinates == o.coordinates
            &&& match b.health_endpoint {
                None => p.health_endpoint is None,
                Some(path) => (p.health_endpoint matches Some(h) && health_joined(o.address, path@, h)),
            }
        },
        Err(e) => {
            ||| w == 0 && e is ZeroWeight
            ||| w >= 1 && !coordinates_valid(o.coordinates) && e is CoordinateError
            ||| w >= 1 && coordinates_valid(o.coordinates) && (b.health_endpoint matches Some(path)
                && health_join_fails(o.address, path@, e))
        },
    }
}

impl Peer {
    /// Weight at least one, coordinate in range.
    pub open spec fn wf(&self) -> bool {
        self.weight >= 1 && coordinates_valid(self.coordinates)
    }

    /// A peer at `addr` with weight one, no coordinate and no distinct health
    /// target, not yet healthy.
    pub fn new(addr: &str) -> (r: Result<Peer, NetworkTargetError>)
        ensures
            match r {
                Ok(p) => {
                    &&& crate::target::parse_outcome(addr@, Ok(p.address))
                    &&& !p.healthy && p.weight == 1 && p.coordinates is None
                    &&& p.health_endpoint is None
                    &&& p.wf()
                },
                Err(e) => crate::target::parse_outcome(addr@, Err(e)),
            },
    {
        let target = NetworkTarget::parse(addr)?;
        Ok(Peer {
            healthy: false,
            address: target,
            weight: 1,
            coordinates: None,
            health_endpoint: None,
        })
    }

    /// The peer for entry `options` of backend group `backend_config`.
    pub fn from_config(options: &PeerConfig, backend_config: &BackendOptions) -> (r: Result<
        Peer,
        PeerError,
    >)
        ensures
            from_config_outcome(*options, *backend_config, r),
            r matches Ok(p) ==> p.wf(),
    {
        let weight = match options.weight {
            Some(w) => w,
            None => 1,
        };
        if weight == 0 {
            return Err(PeerError::ZeroWeight);
        }
        let coordinates = options.coordinates;
        if let Some(c) = coordinates {
            if !c.is_valid() {
                return Err(PeerError::CoordinateError);
            }
        }
        let health_endpoint = match &backend_config.health_endpoint {
            None => None,
            Some(path) => {
                let mut h = options.address.clone();
                match &options.address {
                    NetworkTarget::SocketAddr(_) => {},
                    NetworkTarget::Url(_) => match h.push(path.as_str()) {
                        Ok(()) => {},
                        Err(e) => {
                            return Err(PeerError::InvalidHealthEndpointError(e));
                        },
                    },
                }
                Some(h)
            },
        };
        Ok(Peer {
            healthy: false,
            address: options.address.clone(),
            weight,
            coordinates,
            health_endpoint,
        })
    }

    /// Where health probes go: the distinct health target, else the address.
    pub fn probe_target(&self) -> (r: &NetworkTarget)
        ensures
            *r == match self.health_endpoint {
                Some(h) => h,
                None => self.address,
            },
    {
        match &self.health_endpoint {
            Some(h) => h,
            None => &self.address,
        }
    }

    /// Records a completed probe: a connection made means healthy; a timeout
    /// or a failed connection means unreachable, and neither is an error.
    pub fn record_probe(&mut self, attempt: ConnectAttempt) -> (r: ProbeOutcome)
        ensures
            r == (if attempt is Connected {
                ProbeOutcome::Healthy
            } else {
                ProbeOutcome::Unreachable
            }),
            final(self).healthy == (attempt is Connected),
            final(self).address == old(self).address,
            final(self).health_endpoint == old(self).health_endpoint,
            final(self).weight == old(self).weight,
            final(self).coordinates == old(self).coordinates,
    {
        match attempt {
            ConnectAttempt::Connected => {
                self.healthy = true;
                ProbeOutcome::Healthy
            },
            _ => {
                self.healthy = false;
                ProbeOutcome::Unreachable
            },
        }
    }
}

impl Clone for Peer {
    fn clone(&self) -> (r: Self)
        ensures
            r == *self,
    {
        Peer {
            healthy: self.healthy,
            health_endpoint: match &self.health_endpoint {
                Some(h) => Some(h.clone()),
                None => None,
            },
            address: self.address.clone(),
            weight: self.weight,
            coordinates: self.coordinates,
        }
    }
}

} // verus!
