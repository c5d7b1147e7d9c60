//! The most recent opportunities, newest first, as the dashboard shows
//! them.

use crate::scanner::{ArbOpportunity, OppView};
use std::collections::VecDeque;
use vstd::prelude::*;

verus! {

/// The views of a sequence of opportunities.
pub open spec fn views(s: Seq<ArbOpportunity>) -> Seq<OppView> {
    s.map_values(|o: ArbOpportunity| o@)
}

/// How many opportunities are kept.
pub const HISTORY_CAPACITY: usize = 100usize;

/// The last opportunities detected, newest first, at most 100.
pub struct OpportunityLog {
    items: VecDeque<ArbOpportunity>,
}

impl OpportunityLog {
    #[verifier::type_invariant]
    spec fn inv(self) -> bool {
        self.items@.len() <= HISTORY_CAPACITY
    }

    /// The kept opportunities, newest first.
    pub closed spec fn entries(&self) -> Seq<OppView> {
        views(self.items@)
    }

    /// An empty log.
    pub fn new() -> (r: OpportunityLog)
        ensures
            r.entries().len() == 0,
    {
        let r = OpportunityLog { items: VecDeque::with_capacity(HISTORY_CAPACITY) };
        proof {
            assert(r.entries().len() == 0);
        }
        r
    }

    /// How many opportunities are kept.
    pub fn len(&self) -> (r: usize)
        ensures
            r == self.entries().len(),
            r <= HISTORY_CAPACITY,
    {
        proof {
            use_type_invariant(self);
        }
        self.items.len()
    }

    /// Records a new opportunity in front; when 100 are already kept the
    /// oldest is dropped.
    pub fn record(&mut self, opp: ArbOpportunity)
        ensures
            final(self).entries() == seq![opp@] + (if old(self).entries().len() >= HISTORY_CAPACITY {
                old(self).entries().drop_last()
            } else {
                old(self).entries()
            }),
            final(self).entries().len() <= HISTORY_CAPACITY,
    {
        proof {
            use_type_invariant(&*self);
        }
        let ghost before = self.entries();
        let mut items: VecDeque<ArbOpportunity> = VecDeque::new();
        std::mem::swap(&mut items, &mut self.items);
        if items.len() >= HISTORY_CAPACITY {
            items.pop_back();
        }
        items.push_front(opp);
        let ghost expected = seq![opp@] + (if before.len() >= HISTORY_CAPACITY { before.drop_last() } else { before });
        proof {
            assert(views(items@) =~= expected);
        }
        self.items = items;
    }

    /// Copies of the kept opportunities, newest first.
    pub fn snapshot(&self) -> (r: Vec<ArbOpportunity>)
        ensures
            views(r@) == self.entries(),
    {
        let mut out: Vec<ArbOpportunity> = Vec::new();
        let n = self.items.len();
        let mut i: usize = 0;
        while i < n
            invariant
                n == self.items@.len(),
                i <= n,
                out@.len() == i,
                views(out@) == self.entries().take(i as int),
            decreases n - i,
        {
            let item = &self.items[i];
            let c = item.clone();
            let ghost before = out@;
            out.push(c);
            proof {
                assert(views(out@)[i as int] == self.entries()[i as int]);
                assert forall|k: int| 0 <= k < i implies views(out@)[k] == views(before)[k] by {}
                assert(views(out@) =~= self.entries().take(i + 1));
            }
            i = i + 1;
        }
        proof {
            assert(self.entries().take(n as int) =~= self.entries());
        }
        out
    }
}

} // verus!
