//! The load balancer: the decision made for each accepted connection.
use crate::address::{IpAddress, SocketAddress};
use crate::backend::Backend;
use crate::config::{Config, LoadBalancerStrategy};
use crate::errors::ConfigError;
use crate::least_connections::LeastConnections;
use crate::peer::{from_config_outcome, ConnectAttempt, Peer, ProbeOutcome};
use crate::security::{admits, Security};
use crate::selector::RoundRobin;
use crate::selector::probe_recorded;
use crate::strategy::{chose, counters_kept, PeerSelector};
use crate::target::NetworkTarget;
use crate::weighted::WeightedRoundRobin;
use vstd::prelude::*;

verus! {

/// What becomes of an accepted connection.
#[derive(Debug)]
pub enum Dispatch {
    /// The client's address is filtered out: the connection is dropped with
    /// no bytes exchanged.
    Rejected,
    /// There is no peer to send it to: the connection is closed.
    NoPeer,
    /// Relay the connection to this peer, at this index of the pool.
    Forward(usize, Peer),
}

/// Whether a listener that serves for `limit` nanoseconds stops taking
/// connections after `elapsed` nanoseconds: once the elapsed time passes the
/// limit.
pub fn serving_time_over(elapsed: u128, limit: u128) -> (r: bool)
    ensures
        r == (elapsed > limit),
{
    elapsed > limit
}

/// `s` is a pool of the kind that `strategy` runs, before any choice: the
/// cursor at the first turn, no connection counted.
pub open spec fn fresh_for(strategy: LoadBalancerStrategy, s: PeerSelector) -> bool {
    match (strategy, s) {
        (LoadBalancerStrategy::RoundRobin, PeerSelector::RoundRobin(x)) => x.cursor() == 0,
        (LoadBalancerStrategy::WeightedAverage, PeerSelector::Weighted(x)) => x.slot() == 0,
        (LoadBalancerStrategy::LeastUsed, PeerSelector::LeastConnections(x)) => forall|i: int|
            0 <= i < x.in_flight().len() ==> #[trigger] x.in_flight()[i] == 0,
        _ => false,
    }
}

/// The filter and the peer pool behind one listening socket. The pool is the
/// only state that connections share; callers guard it with one lock taken
/// for each decision alone, never across a connect or a relay.
#[derive(Debug)]
pub struct NetworkLoadBalancer {
    security: Security,
    backend: Backend,
    selector: PeerSelector,
}

fn round_robin_pool(peers: Vec<Peer>) -> (r: PeerSelector)
    ensures
        r.wf(),
        r.pool() == peers@,
        fresh_for(LoadBalancerStrategy::RoundRobin, r),
{
    PeerSelector::RoundRobin(RoundRobin::with_pool(peers))
}

fn weighted_pool(peers: &Vec<Peer>) -> (r: PeerSelector)
    requires
        forall|i: int| 0 <= i < peers@.len() ==> #[trigger] peers@[i].weight >= 1,
    ensures
        r.wf(),
        r.pool() == peers@,
        fresh_for(LoadBalancerStrategy::WeightedAverage, r),
{
    let mut s = WeightedRoundRobin::new();
    let mut i: usize = 0;
    while i < peers.len()
        invariant
            i <= peers@.len(),
            s.wf(),
            s.slot() == 0,
            s.pool() == peers@.subrange(0, i as int),
            s.total() <= i * 0xffff_ffff,
            forall|j: int| 0 <= j < peers@.len() ==> #[trigger] peers@[j].weight >= 1,
        decreases peers.len() - i,
    {
        let p = peers[i].clone();
        s.add_peer(p);
        i = i + 1;
        assert(s.pool() =~= peers@.subrange(0, i as int));
    }
    assert(peers@.subrange(0, i as int) =~= peers@);
    PeerSelector::Weighted(s)
}

fn least_connections_pool(peers: &Vec<Peer>) -> (r: PeerSelector)
    ensures
        r.wf(),
        r.pool() == peers@,
        fresh_for(LoadBalancerStrategy::LeastUsed, r),
{
    let mut s = LeastConnections::new();
    let mut i: usize = 0;
    while i < peers.len()
        invariant
            i <= peers@.len(),
            s.wf(),
            s.pool() == peers@.subrange(0, i as int),
            forall|j: int| 0 <= j < s.in_flight().len() ==> #[trigger] s.in_flight()[j] == 0,
        decreases peers.len() - i,
    {
        let p = peers[i].clone();
        s.add_peer(p);
        i = i + 1;
        assert(s.pool() =~= peers@.subrange(0, i as int));
    }
    assert(peers@.subrange(0, i as int) =~= peers@);
    PeerSelector::LeastConnections(s)
}

impl NetworkLoadBalancer {
    pub closed spec fn security_spec(&self) -> Security {
        self.security
    }

    pub closed spec fn selector(&self) -> PeerSelector {
        self.selector
    }

    pub closed spec fn backend_spec(&self) -> Backend {
        self.backend
    }

    pub open spec fn wf(&self) -> bool {
        self.selector().wf()
    }

    /// The balancer for `cfg`: the configured strategy over the peers of its
    /// backend group, in order. Geolocation is refused (no source of client
    /// coordinates is defined), as is a peer entry that cannot be made a peer.
    pub fn new_from_config(cfg: &Config) -> (r: Result<Self, ConfigError>)
        ensures
            match r {
                Ok(lb) => {
                    &&& cfg.loadbalancer.strategy != LoadBalancerStrategy::Geolocation
                    &&& lb.wf()
                    &&& fresh_for(cfg.loadbalancer.strategy, lb.selector())
                    &&& lb.selector().pool().len() == cfg.backend.peers@.len()
                    &&& forall|i: int|
                        0 <= i < cfg.backend.peers@.len() ==> from_config_outcome(
                            cfg.backend.peers@[i],
                            cfg.backend,
                            Ok(#[trigger] lb.selector().pool()[i]),
                        )
                    &&& lb.security_spec().allowed() == cfg.security.allowed()
                    &&& lb.security_spec().denied() == cfg.security.denied()
                    &&& lb.backend_spec().rate_limit == cfg.backend.rate_limit
                },
                Err(ConfigError::InvalidStrategy(m)) => cfg.loadbalancer.strategy
                    == LoadBalancerStrategy::Geolocation && m@ == "geo"@,
                Err(ConfigError::InvalidPeer(e)) => {
                    &&& cfg.loadbalancer.strategy != LoadBalancerStrategy::Geolocation
                    &&& exists|i: int|
                        0 <= i < cfg.backend.peers@.len() && from_config_outcome(
                            #[trigger] cfg.backend.peers@[i],
                            cfg.backend,
                            Err(e),
                        )
                },
                Err(_) => false,
            },
    {
        let strategy = cfg.strategy();
        if let LoadBalancerStrategy::Geolocation = strategy {
            return Err(ConfigError::InvalidStrategy(strategy.name().to_string()));
        }
        let peers = match cfg.backend.peers() {
            Ok(peers) => peers,
            Err(e) => {
                return Err(ConfigError::InvalidPeer(e));
            },
        };
        let selector = match strategy {
            LoadBalancerStrategy::WeightedAverage => weighted_pool(&peers),
            LoadBalancerStrategy::LeastUsed => least_connections_pool(&peers),
            _ => round_robin_pool(peers),
        };
        Ok(Self {
            security: cfg.security.clone(),
            backend: Backend::from_config(&cfg.backend),
            selector,
        })
    }

    /// Whether a client at `ip` may connect.
    pub fn is_allowed(&self, ip: &IpAddress) -> (r: bool)
        ensures
            r == admits(self.security_spec().allowed(), self.security_spec().denied(), *ip),
    {
        self.security.is_allowed(ip)
    }

    /// The IP filter.
    pub fn security(&self) -> (r: &Security)
        ensures
            *r == self.security_spec(),
    {
        &self.security
    }

    /// The options of the backend group.
    pub fn backend(&self) -> (r: &Backend)
        ensures
            *r == self.backend_spec(),
    {
        &self.backend
    }

    /// Decides what becomes of a connection accepted from `client`: dropped
    /// where the filter refuses its address, else sent to the peer that the
    /// strategy chooses, else closed for want of a peer. A refused client
    /// leaves the pool as it is.
    pub fn listener_task(&mut self, client: SocketAddress) -> (r: Dispatch)
        requires
            old(self).wf(),
        ensures
            final(self).wf(),
            final(self).security_spec() == old(self).security_spec(),
            final(self).backend_spec() == old(self).backend_spec(),
            !admits(old(self).security_spec().allowed(), old(self).security_spec().denied(), client.ip)
                ==> r is Rejected && final(self).selector() == old(self).selector(),
            admits(old(self).security_spec().allowed(), old(self).security_spec().denied(), client.ip)
                ==> match r {
                Dispatch::Forward(i, p) => chose(old(self).selector(), final(self).selector(), Some((i, p))),
                Dispatch::NoPeer => chose(old(self).selector(), final(self).selector(), None),
                Dispatch::Rejected => false,
            },
    {
        if !self.is_allowed(&client.ip) {
            return Dispatch::Rejected;
        }
        match self.selector.pick() {
            Some((i, peer)) => Dispatch::Forward(i, peer),
            None => Dispatch::NoPeer,
        }
    }

    /// Records that a forwarded connection to peer `index` has finished.
    pub fn connection_closed(&mut self, index: usize)
        requires
            old(self).wf(),
        ensures
            final(self).wf(),
            final(self).security_spec() == old(self).security_spec(),
            final(self).backend_spec() == old(self).backend_spec(),
            final(self).selector().pool() == old(self).selector().pool(),
            match (old(self).selector(), final(self).selector()) {
                (PeerSelector::LeastConnections(x), PeerSelector::LeastConnections(y)) => y.in_flight()
                    == if index < x.in_flight().len() {
                    x.in_flight().update(
                        index as int,
                        crate::least_connections::one_fewer(x.in_flight()[index as int]),
                    )
                } else {
                    x.in_flight()
                },
                _ => final(self).selector() == old(self).selector(),
            },
    {
        self.selector.release(index);
    }

    /// Where the health probe of each peer goes, in pool order.
    pub fn probe_targets(&self) -> (r: Vec<NetworkTarget>)
        ensures
            r@.len() == self.selector().pool().len(),
            forall|i: int|
                0 <= i < r@.len() ==> #[trigger] r@[i] == match self.selector().pool()[i].health_endpoint {
                    Some(h) => h,
                    None => self.selector().pool()[i].address,
                },
    {
        self.selector.probe_targets()
    }

    /// Records the probe of peer `index`; a peer that is no longer in the
    /// pool is passed over.
    pub fn record_probe(&mut self, index: usize, attempt: ConnectAttempt) -> (r: Option<ProbeOutcome>)
        requires
            old(self).wf(),
        ensures
            final(self).wf(),
            final(self).security_spec() == old(self).security_spec(),
            final(self).backend_spec() == old(self).backend_spec(),
            index < old(self).selector().pool().len() ==> {
                &&& counters_kept(old(self).selector(), final(self).selector())
                &&& probe_recorded(
                    old(self).selector().pool(),
                    final(self).selector().pool(),
                    index as int,
                    attempt,
                )
                &&& r == Some(
                    if attempt is Connected {
                        ProbeOutcome::Healthy
                    } else {
                        ProbeOutcome::Unreachable
                    },
                )
            },
            index >= old(self).selector().pool().len() ==> r is None && *final(self) == *old(self),
    {
        if index >= self.selector.len() {
            return None;
        }
        Some(self.selector.record_probe(index, attempt))
    }
}

} // verus!
