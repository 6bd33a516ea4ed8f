//! The strategies a load balancer can run, as one closed set.
use crate::least_connections::{least_loaded, one_fewer, one_more, LeastConnections};
use crate::peer::{ConnectAttempt, Peer, ProbeOutcome};
use crate::selector::{advance, probe_recorded, RoundRobin};
use crate::target::NetworkTarget;
use crate::weighted::{owns_slot, WeightedRoundRobin};
use vstd::prelude::*;

verus! {

/// The peer pool together with the strategy that chooses from it.
#[derive(Debug)]
pub enum PeerSelector {
    RoundRobin(RoundRobin),
    Weighted(WeightedRoundRobin),
    LeastConnections(LeastConnections),
}

/// One choice: moving from `a` to `b` chose `r` (an index into the pool and
/// that peer), as the strategy of `a` prescribes.
pub open spec fn chose(a: PeerSelector, b: PeerSelector, r: Option<(usize, Peer)>) -> bool {
    match (a, b) {
        (PeerSelector::RoundRobin(x), PeerSelector::RoundRobin(y)) => {
            &&& y.pool() == x.pool()
            &&& y.cursor() == advance(x.cursor(), x.pool().len())
            &&& r == if x.pool().len() == 0 {
                None
            } else {
                Some((x.cursor() as usize, x.pool()[x.cursor() as int]))
            }
        },
        (PeerSelector::Weighted(x), PeerSelector::Weighted(y)) => {
            &&& y.pool() == x.pool()
            &&& x.pool().len() == 0 ==> r is None && y.slot() == 0
            &&& x.pool().len() > 0 ==> y.slot() == (x.slot() + 1) % x.total()
            &&& x.pool().len() > 0 ==> match r {
                Some((i, p)) => owns_slot(x.pool(), i as int, x.slot()) && p == x.pool()[i as int],
                None => false,
            }
        },
        (PeerSelector::LeastConnections(x), PeerSelector::LeastConnections(y)) => {
            &&& y.pool() == x.pool()
            &&& x.pool().len() == 0 ==> r is None && y.in_flight() == x.in_flight()
            &&& x.pool().len() > 0 ==> match r {
                Some((i, p)) => {
                    &&& least_loaded(x.in_flight(), i as int)
                    &&& p == x.pool()[i as int]
                    &&& y.in_flight() == x.in_flight().update(
                        i as int,
                        one_more(x.in_flight()[i as int]),
                    )
                },
                None => false,
            }
        },
        _ => false,
    }
}

/// `b` keeps the strategy and the choice state of `a`: the cursor, the turn
/// and total weight, or the counts in flight.
pub open spec fn counters_kept(a: PeerSelector, b: PeerSelector) -> bool {
    match (a, b) {
        (PeerSelector::RoundRobin(x), PeerSelector::RoundRobin(y)) => y.cursor() == x.cursor(),
        (PeerSelector::Weighted(x), PeerSelector::Weighted(y)) => y.slot() == x.slot() && y.total()
            == x.total(),
        (PeerSelector::LeastConnections(x), PeerSelector::LeastConnections(y)) => y.in_flight()
            == x.in_flight(),
        _ => false,
    }
}

impl PeerSelector {
    pub open spec fn pool(&self) -> Seq<Peer> {
        match self {
            PeerSelector::RoundRobin(s) => s.pool(),
            PeerSelector::Weighted(s) => s.pool(),
            PeerSelector::LeastConnections(s) => s.pool(),
        }
    }

    pub open spec fn wf(&self) -> bool {
        match self {
            PeerSelector::RoundRobin(s) => s.wf(),
            PeerSelector::Weighted(s) => s.wf(),
            PeerSelector::LeastConnections(s) => s.wf(),
        }
    }

    pub fn len(&self) -> (r: usize)
        ensures
            r == self.pool().len(),
    {
        match self {
            PeerSelector::RoundRobin(s) => s.len(),
            PeerSelector::Weighted(s) => s.len(),
            PeerSelector::LeastConnections(s) => s.len(),
        }
    }

    /// Chooses the peer for a new connection; nothing for an empty pool.
    pub fn pick(&mut self) -> (r: Option<(usize, Peer)>)
        requires
            old(self).wf(),
        ensures
            final(self).wf(),
            chose(*old(self), *final(self), r),
    {
        match self {
            PeerSelector::RoundRobin(s) => {
                let i = s.cursor_index();
                match s.next() {
                    Some(p) => Some((i, p)),
                    None => None,
                }
            },
            PeerSelector::Weighted(s) => s.next(),
            PeerSelector::LeastConnections(s) => s.next(),
        }
    }

    /// Counts a connection to peer `index` as finished. Only least
    /// connections keeps counts; the other strategies are left as they are.
    pub fn release(&mut self, index: usize)
        requires
            old(self).wf(),
        ensures
            final(self).wf(),
            final(self).pool() == old(self).pool(),
            match (*old(self), *final(self)) {
                (PeerSelector::LeastConnections(x), PeerSelector::LeastConnections(y)) => y.in_flight()
                    == if index < x.in_flight().len() {
                    x.in_flight().update(index as int, one_fewer(x.in_flight()[index as int]))
                } else {
                    x.in_flight()
                },
                _ => *final(self) == *old(self),
            },
    {
        match self {
            PeerSelector::LeastConnections(s) => s.release(index),
            _ => {},
        }
    }

    /// Where the health probe of each peer goes, in pool order.
    pub fn probe_targets(&self) -> (r: Vec<NetworkTarget>)
        ensures
            r@.len() == self.pool().len(),
            forall|i: int|
                0 <= i < r@.len() ==> #[trigger] r@[i] == match self.pool()[i].health_endpoint {
                    Some(h) => h,
                    None => self.pool()[i].address,
                },
    {
        match self {
            PeerSelector::RoundRobin(s) => s.probe_targets(),
            PeerSelector::Weighted(s) => s.probe_targets(),
            PeerSelector::LeastConnections(s) => s.probe_targets(),
        }
    }

    /// Records the probe of the peer at `index`.
    pub fn record_probe(&mut self, index: usize, attempt: ConnectAttempt) -> (r: ProbeOutcome)
        requires
            old(self).wf(),
            index < old(self).pool().len(),
        ensures
            final(self).wf(),
            counters_kept(*old(self), *final(self)),
            probe_recorded(old(self).pool(), final(self).pool(), index as int, attempt),
            r == (if attempt is Connected {
                ProbeOutcome::Healthy
            } else {
                ProbeOutcome::Unreachable
            }),
    {
        match self {
            PeerSelector::RoundRobin(s) => s.record_probe(index, attempt),
            PeerSelector::Weighted(s) => s.record_probe(index, attempt),
            PeerSelector::LeastConnections(s) => s.record_probe(index, attempt),
        }
    }
}

} // verus!
