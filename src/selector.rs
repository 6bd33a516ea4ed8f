//! The peer pool of a backend group and the round-robin strategy over it.
use crate::peer::{ConnectAttempt, Peer, ProbeOutcome};
use crate::target::NetworkTarget;
use vstd::prelude::*;

verus! {

/// Chooses the peer for each new connection.
pub trait Selector {
    fn next(&mut self) -> Option<Peer>;

    fn add_peer(&mut self, peer: Peer);
}

/// Where the health probe of each peer of `pool` goes, in order.
pub fn probe_targets_of(pool: &Vec<Peer>) -> (r: Vec<NetworkTarget>)
    ensures
        r@.len() == pool@.len(),
        forall|i: int|
            0 <= i < r@.len() ==> #[trigger] r@[i] == match pool@[i].health_endpoint {
                Some(h) => h,
                None => pool@[i].address,
            },
{
    let mut targets: Vec<NetworkTarget> = Vec::new();
    let mut i: usize = 0;
    while i < pool.len()
        invariant
            i <= pool@.len(),
            targets@.len() == i,
            forall|j: int|
                0 <= j < i ==> #[trigger] targets@[j] == match pool@[j].health_endpoint {
                    Some(h) => h,
                    None => pool@[j].address,
                },
        decreases pool.len() - i,
    {
        targets.push(pool[i].probe_target().clone());
        i = i + 1;
    }
    targets
}

/// `new` is the pool `old` with the probe of peer `index` recorded: its
/// health flag set from `attempt`, all else of it and every other peer kept.
pub open spec fn probe_recorded(old: Seq<Peer>, new: Seq<Peer>, index: int, attempt: ConnectAttempt) -> bool {
    &&& 0 <= index < old.len()
    &&& new.len() == old.len()
    &&& forall|i: int| 0 <= i < old.len() && i != index ==> #[trigger] new[i] == old[i]
    &&& new[index].healthy == (attempt is Connected)
    &&& new[index].address == old[index].address
    &&& new[index].health_endpoint == old[index].health_endpoint
    &&& new[index].weight == old[index].weight
    &&& new[index].coordinates == old[index].coordinates
}

/// Records the probe of peer `index` of `pool`; the other peers and the
/// order are left as they are.
pub fn record_probe_in(pool: &mut Vec<Peer>, index: usize, attempt: ConnectAttempt) -> (r: ProbeOutcome)
    requires
        index < old(pool)@.len(),
    ensures
        probe_recorded(old(pool)@, final(pool)@, index as int, attempt),
        r == (if attempt is Connected {
            ProbeOutcome::Healthy
        } else {
            ProbeOutcome::Unreachable
        }),
{
    let mut peer = pool[index].clone();
    let r = peer.record_probe(attempt);
    pool.set(index, peer);
    r
}

/// The cursor after one choice among `n` peers from cursor `c`.
pub open spec fn advance(c: nat, n: nat) -> nat {
    if n == 0 {
        0
    } else {
        (c + 1) % n
    }
}

/// The cursor of a fresh round-robin pool of `n` peers after `k` choices.
pub open spec fn cursor_after(n: nat, k: nat) -> nat
    decreases k,
{
    if k == 0 {
        0
    } else {
        advance(cursor_after(n, (k - 1) as nat), n)
    }
}

/// A pool of peers handed out in turn. The cursor is the index of the peer
/// that the next choice returns. Health is advisory: every peer takes its
/// turn, since a peer counts as unhealthy until its first probe.
#[derive(Debug)]
pub struct RoundRobin {
    last_idx: usize,
    pool: Vec<Peer>,
}

impl RoundRobin {
    pub closed spec fn cursor(&self) -> nat {
        self.last_idx as nat
    }

    pub closed spec fn pool(&self) -> Seq<Peer> {
        self.pool@
    }

    /// The cursor stays within the pool, and is zero for an empty pool.
    pub open spec fn wf(&self) -> bool {
        if self.pool().len() == 0 {
            self.cursor() == 0
        } else {
            self.cursor() < self.pool().len()
        }
    }

    pub fn new() -> (r: Self)
        ensures
            r.pool() == Seq::<Peer>::empty(),
            r.cursor() == 0,
            r.wf(),
    {
        Self { last_idx: 0, pool: Vec::new() }
    }

    /// A pool of `peers`, in order, whose first choice is the first peer.
    pub fn with_pool(peers: Vec<Peer>) -> (r: Self)
        ensures
            r.pool() == peers@,
            r.cursor() == 0,
            r.wf(),
    {
        Self { last_idx: 0, pool: peers }
    }

    pub fn len(&self) -> (r: usize)
        ensures
            r == self.pool().len(),
    {
        self.pool.len()
    }

    /// The index of the peer that the next choice returns.
    pub fn cursor_index(&self) -> (r: usize)
        ensures
            r == self.cursor(),
    {
        self.last_idx
    }

    /// The peer at the cursor, after which the cursor moves on by one, back
    /// to the first peer after the last; nothing for an empty pool.
    pub fn next(&mut self) -> (r: Option<Peer>)
        requires
            old(self).wf(),
        ensures
            final(self).wf(),
            final(self).pool() == old(self).pool(),
            final(self).cursor() == advance(old(self).cursor(), old(self).pool().len()),
            r == if old(self).pool().len() == 0 {
                None
            } else {
                Some(old(self).pool()[old(self).cursor() as int])
            },
    {
        let len = self.pool.len();
        if len == 0 {
            return None;
        }
        let chosen = self.pool[self.last_idx].clone();
        self.last_idx = (self.last_idx + 1) % len;
        Some(chosen)
    }

    /// Appends a peer; the cursor stays where it is.
    pub fn add_peer(&mut self, peer: Peer)
        requires
            old(self).wf(),
        ensures
            final(self).wf(),
            final(self).pool() == old(self).pool().push(peer),
            final(self).cursor() == old(self).cursor(),
    {
        self.pool.push(peer);
    }

    /// Where the health probe of each peer goes, in pool order.
    pub fn probe_targets(&self) -> (r: Vec<NetworkTarget>)
        ensures
            r@.len() == self.pool().len(),
            forall|i: int|
                0 <= i < r@.len() ==> #[trigger] r@[i] == match self.pool()[i].health_endpoint {
                    Some(h) => h,
                    None => self.pool()[i].address,
                },
    {
        probe_targets_of(&self.pool)
    }

    /// Records the probe of the peer at `index`; the other peers, their
    /// order and the cursor are left as they are.
    pub fn record_probe(&mut self, index: usize, attempt: ConnectAttempt) -> (r: ProbeOutcome)
        requires
            old(self).wf(),
            index < old(self).pool().len(),
        ensures
            final(self).wf(),
            final(self).cursor() == old(self).cursor(),
            probe_recorded(old(self).pool(), final(self).pool(), index as int, attempt),
            r == (if attempt is Connected {
                ProbeOutcome::Healthy
            } else {
                ProbeOutcome::Unreachable
            }),
    {
        record_probe_in(&mut self.pool, index, attempt)
    }
}

impl Default for RoundRobin {
    fn default() -> (r: Self)
        ensures
            r.pool() == Seq::<Peer>::empty(),
            r.cursor() == 0,
    {
        RoundRobin::new()
    }
}

impl Selector for RoundRobin {
    fn next(&mut self) -> Option<Peer> {
        if self.pool.len() == 0 {
            return None;
        }
        let i = self.last_idx % self.pool.len();
        let chosen = self.pool[i].clone();
        self.last_idx = (i + 1) % self.pool.len();
        Some(chosen)
    }

    fn add_peer(&mut self, peer: Peer) {
        self.pool.push(peer);
    }
}

/// From a fresh pool of `n` peers, the cursor after `k` choices is `k mod n`:
/// choice `k` (counting from zero) returns peer `k mod n`, so the peers come
/// in pool order, over and over.
pub proof fn lemma_round_robin_cycles(n: nat, k: nat)
    requires
        n > 0,
    ensures
        cursor_after(n, k) == k % n,
    decreases k,
{
    if k > 0 {
        lemma_round_robin_cycles(n, (k - 1) as nat);
        let c = ((k - 1) as nat) % n;
        assert(cursor_after(n, k) == (c + 1) % n);
        vstd::arithmetic::div_mod::lemma_add_mod_noop((k - 1) as int, 1, n as int);
        if n > 1 {
            vstd::arithmetic::div_mod::lemma_small_mod(1, n);
        } else {
            assert((c + 1) % 1 == 0);
            assert(k % 1 == 0);
        }
    } else {
        vstd::arithmetic::div_mod::lemma_small_mod(0, n);
    }
}

} // verus!
