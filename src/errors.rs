//! The library's error types.
use vstd::prelude::*;

verus! {

/// Why a configuration could not be loaded or used.
#[derive(Debug)]
pub enum ConfigError {
    /// The configuration file could not be read.
    IOError(String),
    /// The configuration file is not well-formed.
    DeserializationError(String),
    /// The load balancing strategy is unknown or not available.
    InvalidStrategy(String),
    /// The configuration version is unknown: the version given, the versions known.
    InvalidVersion(String, String),
    /// A peer entry could not be turned into a peer.
    InvalidPeer(PeerError),
}

/// Why a connection to a backend could not be made.
#[derive(Debug)]
pub enum LoadBalancerError {
    IOError(String),
    SocketOpenError(String),
}

/// Why a network target could not be built or changed.
#[derive(Debug)]
pub enum NetworkTargetError {
    /// The text is neither a URL nor a socket address.
    InvalidTargetError(String),
    /// The URL cannot take path segments.
    InvalidUrlBase(String),
    /// Path segments can only be pushed onto a URL.
    PushToSocketAddr,
    /// The URL with the segment appended would be too long to hold.
    PathTooLong,
}

/// Why a peer could not be built.
#[derive(Debug)]
pub enum PeerError {
    /// The health endpoint could not be joined to the peer's address.
    InvalidHealthEndpointError(NetworkTargetError),
    /// Latitude or longitude is out of range.
    CoordinateError,
    /// A weight must be at least one.
    ZeroWeight,
}

} // verus!
