//! Admission control for the fetches of one layer: at most `limit` run at
//! once, and the layer is over only once every admitted fetch has completed.

use vstd::prelude::*;

verus! {

pub struct Scheduler {
    /// The number of admission slots.
    pub limit: usize,
    /// The nodes waiting for a slot, the next one first.
    pub pending: Vec<usize>,
    /// The nodes whose fetch holds a slot.
    pub in_flight: Vec<usize>,
}

impl Scheduler {
    /// There is a slot, and no more fetches run than there are slots.
    pub open spec fn wf(&self) -> bool {
        1 <= self.limit && self.in_flight@.len() <= self.limit
    }

    pub open spec fn is_idle(&self) -> bool {
        self.pending@.len() == 0 && self.in_flight@.len() == 0
    }

    pub fn new(limit: usize) -> (r: Scheduler)
        requires
            limit >= 1,
        ensures
            r.wf(),
            r.limit == limit,
            r.is_idle(),
    {
        Scheduler { limit, pending: Vec::new(), in_flight: Vec::new() }
    }

    /// Queues a node for a slot.
    pub fn enqueue(&mut self, node: usize)
        requires
            old(self).wf(),
        ensures
            final(self).wf(),
            final(self).limit == old(self).limit,
            final(self).pending@ == old(self).pending@.push(node),
            final(self).in_flight == old(self).in_flight,
    {
        self.pending.push(node);
    }

    /// Gives the next waiting node a slot, where a slot is free and a node
    /// waits.
    pub fn grant_slot(&mut self) -> (r: Option<usize>)
        requires
            old(self).wf(),
        ensures
            final(self).wf(),
            final(self).limit == old(self).limit,
            r is Some <==> old(self).in_flight@.len() < old(self).limit && old(self).pending@.len() > 0,
            r matches Some(n) ==> n == old(self).pending@[0] && final(self).pending@ == old(self).pending@.drop_first() && final(self).in_flight@ == old(self).in_flight@.push(n),
            r is None ==> final(self).pending == old(self).pending && final(self).in_flight == old(self).in_flight,
    {
        if self.in_flight.len() < self.limit && self.pending.len() > 0 {
            let n = self.pending.remove(0);
            self.in_flight.push(n);
            Some(n)
        } else {
            None
        }
    }

    /// Releases the slot of a node whose fetch has completed, with or
    /// without success; `false` where the node held none.
    pub fn complete(&mut self, node: usize) -> (r: bool)
        requires
            old(self).wf(),
        ensures
            final(self).wf(),
            final(self).limit == old(self).limit,
            final(self).pending == old(self).pending,
            r == old(self).in_flight@.contains(node),
            r ==> exists|k: int|
                0 <= k < old(self).in_flight@.len() && old(self).in_flight@[k] == node && final(self).in_flight@ == old(self).in_flight@.remove(k),
            !r ==> final(self).in_flight == old(self).in_flight,
    {
        let mut k: usize = 0;
        while k < self.in_flight.len()
            invariant
                k <= self.in_flight@.len(),
                self.in_flight == old(self).in_flight,
                self.pending == old(self).pending,
                self.limit == old(self).limit,
                old(self).wf(),
                forall|j: int| 0 <= j < k ==> self.in_flight@[j] != node,
            decreases self.in_flight@.len() - k,
        {
            if self.in_flight[k] == node {
                self.in_flight.remove(k);
                return true;
            }
            k += 1;
        }
        false
    }

    /// Whether no node waits and no fetch runs.
    pub fn idle(&self) -> (r: bool)
        ensures
            r == self.is_idle(),
    {
        self.pending.len() == 0 && self.in_flight.len() == 0
    }
}

} // verus!
