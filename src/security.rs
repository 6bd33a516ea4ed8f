//! The IP filter: an allow set and a deny set of client addresses.
use crate::address::IpAddress;
use vstd::prelude::*;

verus! {

/// An allow set and a deny set of IP addresses. The deny set always wins; an
/// empty allow set lets in every address that is not denied.
#[derive(Debug)]
pub struct Security {
    ip_whitelist: Vec<IpAddress>,
    ip_blacklist: Vec<IpAddress>,
}

/// Whether the filter with allow set `allow` and deny set `deny` lets `ip` in.
pub open spec fn admits(allow: Set<IpAddress>, deny: Set<IpAddress>, ip: IpAddress) -> bool {
    !deny.contains(ip) && (allow.is_empty() || allow.contains(ip))
}

fn contains(v: &Vec<IpAddress>, ip: &IpAddress) -> (r: bool)
    ensures
        r == v@.contains(*ip),
{
    let mut i: usize = 0;
    while i < v.len()
        invariant
            i <= v@.len(),
            forall|j: int| 0 <= j < i ==> v@[j] != *ip,
        decreases v.len() - i,
    {
        if v[i] == *ip {
            return true;
        }
        i = i + 1;
    }
    false
}

fn insert(v: &mut Vec<IpAddress>, ip: IpAddress)
    ensures
        final(v)@.to_set() == old(v)@.to_set().insert(ip),
{
    if !contains(v, &ip) {
        let ghost before = v@;
        v.push(ip);
        assert(v@.to_set() =~= before.to_set().insert(ip)) by {
            assert forall|x: IpAddress| v@.contains(x) <==> before.contains(x) || x == ip by {
                if v@.contains(x) {
                    let j = choose|j: int| 0 <= j < v@.len() && v@[j] == x;
                    if j < before.len() {
                        assert(before[j] == x);
                    }
                }
                if before.contains(x) {
                    let j = choose|j: int| 0 <= j < before.len() && before[j] == x;
                    assert(v@[j] == x);
                }
                if x == ip {
                    assert(v@[before.len() as int] == ip);
                }
            }
        }
    } else {
        assert(v@.to_set() =~= v@.to_set().insert(ip));
    }
}

fn remove(v: &mut Vec<IpAddress>, ip: &IpAddress)
    ensures
        final(v)@.to_set() == old(v)@.to_set().remove(*ip),
{
    let mut kept: Vec<IpAddress> = Vec::new();
    let mut i: usize = 0;
    while i < v.len()
        invariant
            i <= v@.len(),
            forall|x: IpAddress| #[trigger]
                kept@.contains(x) <==> (v@.subrange(0, i as int).contains(x) && x != *ip),
        decreases v.len() - i,
    {
        let ghost before = kept@;
        if v[i] != *ip {
            kept.push(v[i]);
        }
        assert forall|x: IpAddress| #[trigger]
            kept@.contains(x) <==> (v@.subrange(0, i + 1).contains(x) && x != *ip) by {
            let pre = v@.subrange(0, i as int);
            let post = v@.subrange(0, i + 1);
            if post.contains(x) {
                let j = choose|j: int| 0 <= j < post.len() && post[j] == x;
                if j < i {
                    assert(pre[j] == x);
                }
            }
            if pre.contains(x) {
                let j = choose|j: int| 0 <= j < pre.len() && pre[j] == x;
                assert(post[j] == x);
            }
            if x == v@[i as int] {
                assert(post[i as int] == x);
            }
            if kept@.contains(x) {
                let j = choose|j: int| 0 <= j < kept@.len() && kept@[j] == x;
                if j < before.len() {
                    assert(before[j] == x);
                }
            }
            if before.contains(x) {
                let j = choose|j: int| 0 <= j < before.len() && before[j] == x;
                assert(kept@[j] == x);
            }
            if x == v@[i as int] && x != *ip {
                assert(kept@[before.len() as int] == x);
            }
        }
        i = i + 1;
    }
    assert(v@.subrange(0, i as int) =~= v@);
    assert(kept@.to_set() =~= v@.to_set().remove(*ip));
    *v = kept;
}

impl Security {
    /// The allow set.
    pub closed spec fn allowed(&self) -> Set<IpAddress> {
        self.ip_whitelist@.to_set()
    }

    /// The deny set.
    pub closed spec fn denied(&self) -> Set<IpAddress> {
        self.ip_blacklist@.to_set()
    }

    /// A filter with both sets empty: it lets every address in.
    pub fn new() -> (r: Security)
        ensures
            r.allowed() == Set::<IpAddress>::empty(),
            r.denied() == Set::<IpAddress>::empty(),
    {
        let r = Security { ip_blacklist: Vec::new(), ip_whitelist: Vec::new() };
        assert(r.allowed() =~= Set::<IpAddress>::empty());
        assert(r.denied() =~= Set::<IpAddress>::empty());
        r
    }

    /// Whether `ip` may connect: not denied, and allowed where the allow set
    /// is not empty.
    pub fn is_allowed(&self, ip: &IpAddress) -> (r: bool)
        ensures
            r == admits(self.allowed(), self.denied(), *ip),
    {
        if contains(&self.ip_blacklist, ip) {
            return false;
        }
        if self.ip_whitelist.len() == 0 {
            assert(self.allowed() =~= Set::<IpAddress>::empty());
            return true;
        }
        assert(self.ip_whitelist@.to_set().contains(self.ip_whitelist@[0]));
        contains(&self.ip_whitelist, ip)
    }

    pub fn add_to_whitelist(&mut self, ip: IpAddress)
        ensures
            final(self).allowed() == old(self).allowed().insert(ip),
            final(self).denied() == old(self).denied(),
    {
        insert(&mut self.ip_whitelist, ip);
    }

    pub fn add_to_blacklist(&mut self, ip: IpAddress)
        ensures
            final(self).denied() == old(self).denied().insert(ip),
            final(self).allowed() == old(self).allowed(),
    {
        insert(&mut self.ip_blacklist, ip);
    }

    pub fn remove_from_whitelist(&mut self, ip: &IpAddress)
        ensures
            final(self).allowed() == old(self).allowed().remove(*ip),
            final(self).denied() == old(self).denied(),
    {
        remove(&mut self.ip_whitelist, ip);
    }

    pub fn remove_from_blacklist(&mut self, ip: &IpAddress)
        ensures
            final(self).denied() == old(self).denied().remove(*ip),
            final(self).allowed() == old(self).allowed(),
    {
        remove(&mut self.ip_blacklist, ip);
    }
}

impl Clone for Security {
    fn clone(&self) -> (r: Self)
        ensures
            r.allowed() == self.allowed(),
            r.denied() == self.denied(),
    {
        let r = Security {
            ip_whitelist: self.ip_whitelist.clone(),
            ip_blacklist: self.ip_blacklist.clone(),
        };
        assert(r.ip_whitelist@ =~= self.ip_whitelist@);
        assert(r.ip_blacklist@ =~= self.ip_blacklist@);
        r
    }
}

/// A denied address is refused, whatever the allow set holds.
pub proof fn lemma_deny_wins(s: Security, ip: IpAddress)
    requires
        s.denied().contains(ip),
    ensures
        !admits(s.allowed(), s.denied(), ip),
{
}

/// With an empty allow set, every address outside the deny set is let in.
pub proof fn lemma_open_without_allow_set(s: Security, ip: IpAddress)
    requires
        s.allowed().is_empty(),
        !s.denied().contains(ip),
    ensures
        admits(s.allowed(), s.denied(), ip),
{
}

/// With a non-empty allow set, an address outside it is refused.
pub proof fn lemma_allow_set_restricts(s: Security, ip: IpAddress)
    requires
        !s.allowed().is_empty(),
        !s.allowed().contains(ip),
    ensures
        !admits(s.allowed(), s.denied(), ip),
{
}

} // verus!
