//! Weighted round robin: each peer holds as many turns in a cycle as its
//! weight.
use crate::peer::{ConnectAttempt, Peer, ProbeOutcome};
use crate::selector::{probe_recorded, probe_targets_of, record_probe_in};
use crate::target::NetworkTarget;
use vstd::prelude::*;

verus! {

/// The sum of the weights of the first `n` peers.
pub open spec fn weight_sum(pool: Seq<Peer>, n: int) -> nat
    decreases n,
{
    if n <= 0 {
        0
    } else {
        weight_sum(pool, n - 1) + pool[n - 1].weight as nat
    }
}

/// Peer `i` holds turn `s` of the cycle: the turns of each peer follow those
/// of the peers before it, as many as its weight.
pub open spec fn owns_slot(pool: Seq<Peer>, i: int, s: nat) -> bool {
    0 <= i < pool.len() && weight_sum(pool, i) <= s < weight_sum(pool, i + 1)
}

proof fn lemma_weight_sum_monotone(pool: Seq<Peer>, a: int, b: int)
    requires
        a <= b,
    ensures
        weight_sum(pool, a) <= weight_sum(pool, b),
    decreases b - a,
{
    if a < b {
        lemma_weight_sum_monotone(pool, a, b - 1);
    }
}

/// Each turn of the cycle belongs to one peer at most.
pub proof fn lemma_slot_owner_unique(pool: Seq<Peer>, i: int, j: int, s: nat)
    requires
        owns_slot(pool, i, s),
        owns_slot(pool, j, s),
    ensures
        i == j,
{
    if i < j {
        lemma_weight_sum_monotone(pool, i + 1, j);
    }
    if j < i {
        lemma_weight_sum_monotone(pool, j + 1, i);
    }
}

/// Peer `i` holds exactly the turns from the sum of the weights before it,
/// as many as its weight: over a whole cycle it is chosen that many times.
pub proof fn lemma_turns_per_cycle(pool: Seq<Peer>, i: int, s: nat)
    requires
        0 <= i < pool.len(),
    ensures
        owns_slot(pool, i, s) <==> weight_sum(pool, i) <= s < weight_sum(pool, i) + pool[i].weight,
{
}

/// A pool whose peers are chosen in proportion to their weights. The cycle
/// has one turn for each unit of weight; the cursor is the turn that the
/// next choice serves.
#[derive(Debug)]
pub struct WeightedRoundRobin {
    slot: u128,
    total: u128,
    pool: Vec<Peer>,
}

impl WeightedRoundRobin {
    pub closed spec fn slot(&self) -> nat {
        self.slot as nat
    }

    pub closed spec fn total(&self) -> nat {
        self.total as nat
    }

    pub closed spec fn pool(&self) -> Seq<Peer> {
        self.pool@
    }

    /// Every weight is at least one, the total is the sum of the weights, and
    /// the cursor is a turn of the cycle (zero for an empty pool).
    pub open spec fn wf(&self) -> bool {
        &&& forall|i: int| 0 <= i < self.pool().len() ==> #[trigger] self.pool()[i].weight >= 1
        &&& self.total() == weight_sum(self.pool(), self.pool().len() as int)
        &&& if self.pool().len() == 0 {
            self.slot() == 0
        } else {
            self.slot() < self.total()
        }
    }

    pub fn new() -> (r: Self)
        ensures
            r.pool() == Seq::<Peer>::empty(),
            r.slot() == 0,
            r.wf(),
    {
        WeightedRoundRobin { slot: 0, total: 0, pool: Vec::new() }
    }

    pub fn len(&self) -> (r: usize)
        ensures
            r == self.pool().len(),
    {
        self.pool.len()
    }

    /// The sum of the weights: the length of the cycle.
    pub fn total_weight(&self) -> (r: u128)
        ensures
            r == self.total(),
    {
        self.total
    }

    /// Appends a peer; its turns come after those of the peers before it.
    pub fn add_peer(&mut self, peer: Peer)
        requires
            old(self).wf(),
            peer.weight >= 1,
            old(self).total() + peer.weight <= u128::MAX,
        ensures
            final(self).wf(),
            final(self).pool() == old(self).pool().push(peer),
            final(self).slot() == old(self).slot(),
            final(self).total() == old(self).total() + peer.weight,
    {
        let ghost before = self.pool@;
        self.total = self.total + peer.weight as u128;
        self.pool.push(peer);
        proof {
            let p = self.pool@;
            assert(p.drop_last() =~= before);
            assert forall|n: int| 0 <= n <= before.len() implies weight_sum(p, n) == weight_sum(before, n) by {
                lemma_weight_sum_prefix(before, p, n);
            }
            assert(weight_sum(p, p.len() as int) == weight_sum(p, before.len() as int) + p[before.len() as int].weight);
        }
    }

    /// The peer that holds the current turn and its index, after which the cursor moves to
    /// the next turn, back to the first after the last; nothing for an empty
    /// pool.
    pub fn next(&mut self) -> (r: Option<(usize, Peer)>)
        requires
            old(self).wf(),
        ensures
            final(self).wf(),
            final(self).pool() == old(self).pool(),
            old(self).pool().len() == 0 ==> r is None && final(self).slot() == 0,
            old(self).pool().len() > 0 ==> final(self).slot() == (old(self).slot() + 1) % old(
                self,
            ).total(),
            old(self).pool().len() > 0 ==> match r {
                Some((i, p)) => owns_slot(old(self).pool(), i as int, old(self).slot()) && p == old(
                    self,
                ).pool()[i as int],
                None => false,
            },
    {
        let len = self.pool.len();
        if len == 0 {
            return None;
        }
        let mut i: usize = 0;
        let mut acc: u128 = 0;
        proof {
            lemma_weight_sum_monotone(self.pool@, 1, len as int);
        }
        while acc + (self.pool[i].weight as u128) <= self.slot
            invariant
                self.wf(),
                len == self.pool@.len(),
                i < len,
                acc as nat == weight_sum(self.pool@, i as int),
                acc <= self.slot,
                weight_sum(self.pool@, i + 1) <= self.total(),
            decreases len - i,
        {
            acc = acc + self.pool[i].weight as u128;
            i = i + 1;
            assert(i < len) by {
                if i == len {
                    assert(acc as nat == self.total());
                }
            }
            proof {
                lemma_weight_sum_monotone(self.pool@, i + 1, len as int);
            }
        }
        proof {
            lemma_weight_sum_monotone(self.pool@, i as int + 1, len as int);
        }
        let chosen = self.pool[i].clone();
        self.slot = (self.slot + 1) % self.total;
        assert(owns_slot(self.pool@, i as int, old(self).slot()));
        Some((i, chosen))
    }

    /// Where the health probe of each peer goes, in pool order.
    pub fn probe_targets(&self) -> (r: Vec<NetworkTarget>)
        ensures
            r@.len() == self.pool().len(),
            forall|i: int|
                0 <= i < r@.len() ==> #[trigger] r@[i] == match self.pool()[i].health_endpoint {
                    Some(h) => h,
                    None => self.pool()[i].address,
                },
    {
        probe_targets_of(&self.pool)
    }

    /// Records the probe of the peer at `index`; weights and turns stay.
    pub fn record_probe(&mut self, index: usize, attempt: ConnectAttempt) -> (r: ProbeOutcome)
        requires
            old(self).wf(),
            index < old(self).pool().len(),
        ensures
            final(self).wf(),
            final(self).slot() == old(self).slot(),
            final(self).total() == old(self).total(),
            probe_recorded(old(self).pool(), final(self).pool(), index as int, attempt),
            r == (if attempt is Connected {
                ProbeOutcome::Healthy
            } else {
                ProbeOutcome::Unreachable
            }),
    {
        let ghost before = self.pool@;
        let r = record_probe_in(&mut self.pool, index, attempt);
        proof {
            lemma_weight_sum_same_weights(before, self.pool@, before.len() as int);
        }
        r
    }
}

proof fn lemma_weight_sum_prefix(a: Seq<Peer>, b: Seq<Peer>, n: int)
    requires
        0 <= n <= a.len(),
        a.len() <= b.len(),
        forall|i: int| 0 <= i < a.len() ==> a[i] == b[i],
    ensures
        weight_sum(a, n) == weight_sum(b, n),
    decreases n,
{
    if n > 0 {
        lemma_weight_sum_prefix(a, b, n - 1);
    }
}

proof fn lemma_weight_sum_same_weights(a: Seq<Peer>, b: Seq<Peer>, n: int)
    requires
        0 <= n <= a.len(),
        a.len() == b.len(),
        forall|i: int| 0 <= i < a.len() ==> a[i].weight == b[i].weight,
    ensures
        weight_sum(a, n) == weight_sum(b, n),
    decreases n,
{
    if n > 0 {
        lemma_weight_sum_same_weights(a, b, n - 1);
    }
}

} // verus!
