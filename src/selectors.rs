//! Round-robin choice among the backend groups.
use crate::backend::Backend;
use vstd::prelude::*;

verus! {

/// Picks which backend group serves the next request.
pub trait Selector {
    /// The index of the chosen group, below the number of groups; `None`
    /// where there are none.
    fn select_service(&mut self, backends: &Vec<Backend>) -> (r: Option<usize>)
        ensures
            backends@.len() > 0 ==> (r matches Some(i) && i < backends@.len()),
            backends@.len() == 0 ==> r is None,
    ;
}

/// Hands out the groups in turn, starting with the first.
#[derive(Debug, Clone, Copy)]
pub struct RoundRobinSelector {
    last_idx: usize,
}

impl RoundRobinSelector {
    /// The position of the next choice, before it is brought within bounds.
    pub closed spec fn position(&self) -> nat {
        self.last_idx as nat
    }

    pub fn new() -> (r: RoundRobinSelector)
        ensures
            r.position() == 0,
    {
        Self { last_idx: 0 }
    }

    /// The next group in turn. The position is taken modulo the number of
    /// groups, so it stays valid when the list shrinks between calls.
    pub fn select_service(&mut self, backends: &Vec<Backend>) -> (r: Option<usize>)
        ensures
            backends@.len() == 0 ==> r is None && final(self).position() == old(self).position(),
            backends@.len() > 0 ==> {
                &&& r == Some((old(self).position() % backends@.len()) as usize)
                &&& final(self).position() == (old(self).position() % backends@.len() + 1) % backends@.len()
            },
    {
        let len = backends.len();
        if len == 0 {
            return None;
        }
        let current = self.last_idx % len;
        self.last_idx = (current + 1) % len;
        Some(current)
    }
}

impl Default for RoundRobinSelector {
    fn default() -> (r: Self)
        ensures
            r.position() == 0,
    {
        RoundRobinSelector::new()
    }
}

impl Selector for RoundRobinSelector {
    fn select_service(&mut self, backends: &Vec<Backend>) -> (r: Option<usize>) {
        RoundRobinSelector::select_service(self, backends)
    }
}

} // verus!
