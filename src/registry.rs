//! Registry of the fleet's actors: which are in use and which are available.
use vstd::prelude::*;
use crate::models::{Actor, Tour};
use crate::solution::RouteContext;

verus! {

/// Tracks which actors currently own a committed route.
#[derive(Clone, Debug)]
pub struct Registry {
    pub actors: Vec<Actor>,
    pub used: Vec<bool>,
}

/// Indices of the unused actors among the first `n`, in increasing order.
pub open spec fn unused_prefix(used: Seq<bool>, n: int) -> Seq<usize>
    decreases n,
{
    if n <= 0 {
        Seq::empty()
    } else if used[n - 1] {
        unused_prefix(used, n - 1)
    } else {
        unused_prefix(used, n - 1).push((n - 1) as usize)
    }
}

impl Registry {
    pub open spec fn wf(&self) -> bool {
        &&& self.used@.len() == self.actors@.len()
        &&& self.used@.len() <= usize::MAX
    }

    /// Indices of all unused actors, in increasing order.
    pub open spec fn unused(&self) -> Seq<usize> {
        unused_prefix(self.used@, self.used@.len() as int)
    }

    /// A registry in which no actor is used yet.
    pub fn new(actors: Vec<Actor>) -> (r: Registry)
        ensures
            r.wf(),
            r.actors@ == actors@,
            forall|i: int| 0 <= i < r.used@.len() ==> !r.used@[i],
    {
        let mut used: Vec<bool> = Vec::new();
        let mut i: usize = 0;
        while i < actors.len()
            invariant
                i <= actors@.len(),
                used@.len() == i,
                forall|k: int| 0 <= k < used@.len() ==> !used@[k],
            decreases actors@.len() - i,
        {
            used.push(false);
            i = i + 1;
        }
        Registry { actors, used }
    }

    /// Marks the actor as used; returns whether it was available before.
    pub fn use_route(&mut self, actor: usize) -> (fresh: bool)
        requires
            old(self).wf(),
            actor < old(self).actors@.len(),
        ensures
            final(self).wf(),
            final(self).actors@ == old(self).actors@,
            final(self).used@ == old(self).used@.update(actor as int, true),
            fresh == !old(self).used@[actor as int],
    {
        let fresh = !self.used[actor];
        self.used.set(actor, true);
        fresh
    }

    /// One fresh route context for each unused actor, in actor order.
    pub fn next(&self) -> (routes: Vec<RouteContext>)
        requires
            self.wf(),
        ensures
            routes@.len() == self.unused().len(),
            forall|k: int| 0 <= k < routes@.len() ==> {
                &&& (#[trigger] routes@[k]).actor == self.unused()[k]
                &&& routes@[k].is_fresh_for(self.actors@[routes@[k].actor as int])
                &&& routes@[k].snapshot() == crate::solution::fresh_view(routes@[k].actor, self.actors@[routes@[k].actor as int])
                &&& routes@[k].actor < self.actors@.len()
                &&& !self.used@[routes@[k].actor as int]
            },
    {
        let mut routes: Vec<RouteContext> = Vec::new();
        let mut i: usize = 0;
        while i < self.used.len()
            invariant
                self.wf(),
                i <= self.used@.len(),
                routes@.len() == unused_prefix(self.used@, i as int).len(),
                forall|k: int| 0 <= k < routes@.len() ==> {
                    &&& (#[trigger] routes@[k]).actor == unused_prefix(self.used@, i as int)[k]
                    &&& routes@[k].is_fresh_for(self.actors@[routes@[k].actor as int])
                    &&& routes@[k].snapshot() == crate::solution::fresh_view(routes@[k].actor, self.actors@[routes@[k].actor as int])
                },
                forall|k: int| 0 <= k < unused_prefix(self.used@, i as int).len()
                    ==> #[trigger] unused_prefix(self.used@, i as int)[k] < i
                        && !self.used@[unused_prefix(self.used@, i as int)[k] as int],
            decreases self.used@.len() - i,
        {
            if !self.used[i] {
                let tour = Tour::new(&self.actors[i]);
                routes.push(RouteContext { actor: i, tour, load: 0 });
            }
            i = i + 1;
        }
        routes
    }
}

} // verus!

verus! {

/// Every actor listed as unused is in range and not used.
pub proof fn lemma_unused_prefix(used: Seq<bool>, n: int, k: int)
    requires
        0 <= n <= used.len(),
        used.len() <= usize::MAX,
        0 <= k < unused_prefix(used, n).len(),
    ensures
        unused_prefix(used, n)[k] < n,
        !used[unused_prefix(used, n)[k] as int],
    decreases n,
{
    if n > 0 {
        if used[n - 1] {
            lemma_unused_prefix(used, n - 1, k);
        } else if k < unused_prefix(used, n - 1).len() {
            lemma_unused_prefix(used, n - 1, k);
        }
    }
}

} // verus!
