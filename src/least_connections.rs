//! Least connections: each new connection goes to the peer with the fewest
//! connections in flight.
use crate::peer::{ConnectAttempt, Peer, ProbeOutcome};
use crate::selector::{probe_recorded, probe_targets_of, record_probe_in};
use crate::target::NetworkTarget;
use vstd::prelude::*;

verus! {

/// Peer `i` has the fewest connections in flight, and every peer before it
/// has more: ties go to the lowest index.
pub open spec fn least_loaded(counts: Seq<u64>, i: int) -> bool {
    &&& 0 <= i < counts.len()
    &&& forall|j: int| 0 <= j < counts.len() ==> counts[i] <= #[trigger] counts[j]
    &&& forall|j: int| 0 <= j < i ==> #[trigger] counts[j] > counts[i]
}

/// One more connection, held at the largest count.
pub open spec fn one_more(c: u64) -> u64 {
    if c < u64::MAX {
        (c + 1) as u64
    } else {
        c
    }
}

/// One connection fewer, never below zero.
pub open spec fn one_fewer(c: u64) -> u64 {
    if c > 0 {
        (c - 1) as u64
    } else {
        0
    }
}

/// At most one peer is the least loaded.
pub proof fn lemma_least_loaded_unique(counts: Seq<u64>, i: int, j: int)
    requires
        least_loaded(counts, i),
        least_loaded(counts, j),
    ensures
        i == j,
{
    if i < j {
        assert(counts[i] > counts[j]);
    }
    if j < i {
        assert(counts[j] > counts[i]);
    }
}

/// A pool that counts the connections in flight to each peer.
#[derive(Debug)]
pub struct LeastConnections {
    pool: Vec<Peer>,
    in_flight: Vec<u64>,
}

impl LeastConnections {
    pub closed spec fn pool(&self) -> Seq<Peer> {
        self.pool@
    }

    pub closed spec fn in_flight(&self) -> Seq<u64> {
        self.in_flight@
    }

    /// One count for each peer.
    pub open spec fn wf(&self) -> bool {
        self.in_flight().len() == self.pool().len()
    }

    pub fn new() -> (r: Self)
        ensures
            r.pool() == Seq::<Peer>::empty(),
            r.wf(),
    {
        LeastConnections { pool: Vec::new(), in_flight: Vec::new() }
    }

    pub fn len(&self) -> (r: usize)
        ensures
            r == self.pool().len(),
    {
        self.pool.len()
    }

    /// Appends a peer with no connections in flight.
    pub fn add_peer(&mut self, peer: Peer)
        requires
            old(self).wf(),
        ensures
            final(self).wf(),
            final(self).pool() == old(self).pool().push(peer),
            final(self).in_flight() == old(self).in_flight().push(0),
    {
        self.pool.push(peer);
        self.in_flight.push(0);
    }

    /// The least loaded peer and its index, now counted with one more
    /// connection; nothing for an empty pool.
    pub fn next(&mut self) -> (r: Option<(usize, Peer)>)
        requires
            old(self).wf(),
        ensures
            final(self).wf(),
            final(self).pool() == old(self).pool(),
            old(self).pool().len() == 0 ==> r is None && final(self).in_flight() == old(
                self,
            ).in_flight(),
            old(self).pool().len() > 0 ==> match r {
                Some((i, p)) => {
                    &&& least_loaded(old(self).in_flight(), i as int)
                    &&& p == old(self).pool()[i as int]
                    &&& final(self).in_flight() == old(self).in_flight().update(
                        i as int,
                        one_more(old(self).in_flight()[i as int]),
                    )
                },
                None => false,
            },
    {
        let len = self.pool.len();
        if len == 0 {
            return None;
        }
        let mut best: usize = 0;
        let mut i: usize = 1;
        while i < len
            invariant
                len == self.in_flight@.len(),
                1 <= i <= len,
                best < i,
                forall|j: int| 0 <= j < i ==> self.in_flight@[best as int] <= #[trigger] self.in_flight@[j],
                forall|j: int| 0 <= j < best ==> #[trigger] self.in_flight@[j] > self.in_flight@[best as int],
            decreases len - i,
        {
            if self.in_flight[i] < self.in_flight[best] {
                best = i;
            }
            i = i + 1;
        }
        let count = self.in_flight[best];
        let next_count = if count < u64::MAX {
            count + 1
        } else {
            count
        };
        self.in_flight.set(best, next_count);
        Some((best, self.pool[best].clone()))
    }

    /// Counts one connection to peer `index` as finished; an index outside
    /// the pool is passed over.
    pub fn release(&mut self, index: usize)
        requires
            old(self).wf(),
        ensures
            final(self).wf(),
            final(self).pool() == old(self).pool(),
            final(self).in_flight() == if index < old(self).in_flight().len() {
                old(self).in_flight().update(index as int, one_fewer(old(self).in_flight()[index as int]))
            } else {
                old(self).in_flight()
            },
    {
        if index < self.in_flight.len() {
            let count = self.in_flight[index];
            let fewer = if count > 0 {
                count - 1
            } else {
                0
            };
            self.in_flight.set(index, fewer);
        }
    }

    /// Where the health probe of each peer goes, in pool order.
    pub fn probe_targets(&self) -> (r: Vec<NetworkTarget>)
        ensures
            r@.len() == self.pool().len(),
            forall|i: int|
                0 <= i < r@.len() ==> #[trigger] r@[i] == match self.pool()[i].health_endpoint {
                    Some(h) => h,
                    None => self.pool()[i].address,
                },
    {
        probe_targets_of(&self.pool)
    }

    /// Records the probe of the peer at `index`; the counts stay.
    pub fn record_probe(&mut self, index: usize, attempt: ConnectAttempt) -> (r: ProbeOutcome)
        requires
            old(self).wf(),
            index < old(self).pool().len(),
        ensures
            final(self).wf(),
            final(self).in_flight() == old(self).in_flight(),
            probe_recorded(old(self).pool(), final(self).pool(), index as int, attempt),
            r == (if attempt is Connected {
                ProbeOutcome::Healthy
            } else {
                ProbeOutcome::Unreachable
            }),
    {
        record_probe_in(&mut self.pool, index, attempt)
    }
}

} // verus!
