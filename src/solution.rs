//! Route and solution contexts: the working state of one construction run.
use vstd::prelude::*;
use crate::models::{Activity, Actor, Job, Tour};
use crate::registry::Registry;

verus! {

/// The content of a route context.
pub struct RouteView {
    pub actor: usize,
    pub acts: Seq<Activity>,
    pub has_end: bool,
    pub load: u64,
}

impl RouteView {
    /// Number of job activities.
    pub open spec fn job_count(&self) -> int {
        self.acts.len() - 1 - (if self.has_end { 1int } else { 0 })
    }
}

/// The sentinels of an empty tour of `actor`.
pub open spec fn fresh_activities(actor: Actor) -> Seq<Activity> {
    let start = Activity { job: None, location: actor.start_location, duration: 0, demand: 0 };
    match actor.end_location {
        Some(l) => seq![start, Activity { job: None, location: l, duration: 0, demand: 0 }],
        None => seq![start],
    }
}

/// The content of an unused route of actor `a`.
pub open spec fn fresh_view(a: usize, actor: Actor) -> RouteView {
    RouteView { actor: a, acts: fresh_activities(actor), has_end: actor.end_location.is_some(), load: 0 }
}

/// One tour under construction with its cached state.
#[derive(Clone, Debug)]
pub struct RouteContext {
    /// Index of the actor in the registry.
    pub actor: usize,
    pub tour: Tour,
    /// Cached total demand of the tour's activities.
    pub load: u64,
}

impl RouteContext {
    pub open spec fn snapshot(&self) -> RouteView {
        RouteView { actor: self.actor, acts: self.tour.activities@, has_end: self.tour.has_end, load: self.load }
    }

    /// An exact copy.
    pub fn duplicate(&self) -> (r: RouteContext)
        ensures
            r.snapshot() == self.snapshot(),
    {
        let mut activities: Vec<Activity> = Vec::new();
        let mut i: usize = 0;
        while i < self.tour.activities.len()
            invariant
                i <= self.tour.activities@.len(),
                activities@ == self.tour.activities@.take(i as int),
            decreases self.tour.activities@.len() - i,
        {
            activities.push(self.tour.activities[i]);
            assert(activities@ =~= self.tour.activities@.take(i + 1));
            i = i + 1;
        }
        assert(activities@ =~= self.tour.activities@);
        RouteContext { actor: self.actor, tour: Tour { activities, has_end: self.tour.has_end }, load: self.load }
    }

    /// A route that holds no job yet for `actor`.
    pub open spec fn is_fresh_for(&self, actor: Actor) -> bool {
        &&& self.tour.wf()
        &&& self.tour.job_count() == 0
        &&& self.tour.has_end == actor.end_location.is_some()
        &&& self.load == 0
        &&& forall|j: usize| !self.tour.serves(j)
    }

    /// Every job the tour serves is one of the first `n` jobs.
    pub open spec fn jobs_within(&self, n: nat) -> bool {
        forall|p: int| 0 <= p < self.tour.activities@.len()
            ==> ((#[trigger] self.tour.activities@[p]).job matches Some(x) ==> x < n)
    }
}

/// Whether some route serves job `j`.
pub open spec fn in_routes(routes: Seq<RouteContext>, j: usize) -> bool {
    exists|r: int| 0 <= r < routes.len() && #[trigger] routes[r].tour.serves(j)
}

/// Whether `j` is recorded as unassigned.
pub open spec fn in_unassigned(u: Seq<(usize, i32)>, j: usize) -> bool {
    exists|k: int| 0 <= k < u.len() && #[trigger] u[k].0 == j
}

/// The working state of one construction run: a partition of the jobs plus
/// the live routes and the registry of actors.
#[derive(Clone, Debug)]
pub struct SolutionContext {
    /// Jobs that must still be placed.
    pub required: Vec<usize>,
    /// Jobs deliberately dropped by conditional rules.
    pub ignored: Vec<usize>,
    /// Jobs that failed, each with the code of the violated constraint.
    pub unassigned: Vec<(usize, i32)>,
    /// Jobs that may not be moved.
    pub locked: Vec<usize>,
    /// The live routes.
    pub routes: Vec<RouteContext>,
    pub registry: Registry,
    /// The largest solution cost seen so far.
    pub max_cost: u64,
}

impl SolutionContext {
    /// Number of the working sets that hold `j`.
    pub open spec fn occurrences(&self, j: usize) -> int {
        (if self.required@.contains(j) { 1int } else { 0 })
        + (if self.ignored@.contains(j) { 1int } else { 0 })
        + (if in_unassigned(self.unassigned@, j) { 1int } else { 0 })
        + (if self.locked@.contains(j) { 1int } else { 0 })
        + (if in_routes(self.routes@, j) { 1int } else { 0 })
    }

    /// `required`, `ignored`, `unassigned`, `locked` and the jobs in routes are
    /// pairwise disjoint.
    pub open spec fn disjoint(&self) -> bool {
        forall|j: usize| #[trigger] self.occurrences(j) <= 1
    }

    /// Their union is the job set `0..n`.
    pub open spec fn covers(&self, n: nat) -> bool {
        forall|j: usize| #[trigger] self.occurrences(j) >= 1 <==> j < n
    }

    /// Every committed route belongs to a distinct used actor, and every used
    /// actor owns a committed route.
    pub open spec fn routes_match_registry(&self) -> bool {
        &&& self.registry.wf()
        &&& forall|r: int| 0 <= r < self.routes@.len() ==> {
            &&& (#[trigger] self.routes@[r]).actor < self.registry.actors@.len()
            &&& self.registry.used@[self.routes@[r].actor as int]
            &&& self.routes@[r].tour.wf()
            &&& self.routes@[r].tour.has_end
                == self.registry.actors@[self.routes@[r].actor as int].end_location.is_some()
        }
        &&& forall|r1: int, r2: int|
            0 <= r1 < self.routes@.len() && 0 <= r2 < self.routes@.len() && r1 != r2
                ==> #[trigger] self.routes@[r1].actor != #[trigger] self.routes@[r2].actor
        &&& forall|a: int| 0 <= a < self.registry.used@.len() && #[trigger] self.registry.used@[a]
                ==> exists|r: int| 0 <= r < self.routes@.len() && #[trigger] self.routes@[r].actor == a
    }

    /// The invariant of every reachable state for a problem with jobs `jobs`.
    pub open spec fn wf(&self, jobs: Seq<Job>) -> bool {
        &&& self.disjoint()
        &&& self.covers(jobs.len())
        &&& self.routes_match_registry()
    }

    /// A solution in which every job is required and no actor is used.
    pub fn new(n: usize, registry: Registry) -> (s: SolutionContext)
        requires
            registry.wf(),
            forall|i: int| 0 <= i < registry.used@.len() ==> !registry.used@[i],
        ensures
            s.disjoint(),
            s.covers(n as nat),
            s.routes_match_registry(),
            s.required@ == Seq::new(n as nat, |i: int| i as usize),
            s.registry == registry,
    {
        let mut required: Vec<usize> = Vec::new();
        let mut i: usize = 0;
        while i < n
            invariant
                i <= n,
                required@ == Seq::new(i as nat, |k: int| k as usize),
            decreases n - i,
        {
            required.push(i);
            i = i + 1;
        }
        let s = SolutionContext {
            required,
            ignored: Vec::new(),
            unassigned: Vec::new(),
            locked: Vec::new(),
            routes: Vec::new(),
            registry,
            max_cost: 0,
        };
        assert forall|j: usize| #[trigger] s.occurrences(j) >= 1 <==> j < n by {
            if j < n {
                assert(s.required@[j as int] == j);
            }
        }
        s
    }
}

} // verus!

verus! {

pub proof fn lemma_in_unassigned_take_push(u: Seq<(usize, i32)>, i: int, x: usize)
    requires
        0 <= i < u.len(),
    ensures
        in_unassigned(u.take(i + 1), x) <==> (in_unassigned(u.take(i), x) || u[i].0 == x),
{
    if in_unassigned(u.take(i + 1), x) {
        let k = choose|k: int| 0 <= k < u.take(i + 1).len() && #[trigger] u.take(i + 1)[k].0 == x;
        if k < i {
            assert(u.take(i)[k].0 == x);
        }
    }
    if in_unassigned(u.take(i), x) {
        let k = choose|k: int| 0 <= k < u.take(i).len() && #[trigger] u.take(i)[k].0 == x;
        assert(u.take(i + 1)[k].0 == x);
    }
    if u[i].0 == x {
        assert(u.take(i + 1)[i].0 == x);
    }
}

pub proof fn lemma_in_unassigned_push(u: Seq<(usize, i32)>, e: (usize, i32), x: usize)
    ensures
        in_unassigned(u.push(e), x) <==> (in_unassigned(u, x) || e.0 == x),
{
    if in_unassigned(u.push(e), x) {
        let k = choose|k: int| 0 <= k < u.push(e).len() && #[trigger] u.push(e)[k].0 == x;
        if k < u.len() {
            assert(u[k].0 == x);
        }
    }
    if in_unassigned(u, x) {
        let k = choose|k: int| 0 <= k < u.len() && #[trigger] u[k].0 == x;
        assert(u.push(e)[k].0 == x);
    }
    if e.0 == x {
        assert(u.push(e)[u.len() as int].0 == x);
    }
}

} // verus!

verus! {

/// In every reachable state, `required`, `ignored`, `unassigned`, `locked`
/// and the jobs in routes are pairwise disjoint.
pub proof fn lemma_working_sets_disjoint(s: SolutionContext, jobs: Seq<Job>, j: usize)
    requires
        s.wf(jobs),
    ensures
        s.required@.contains(j) ==> !s.ignored@.contains(j) && !in_unassigned(s.unassigned@, j)
            && !s.locked@.contains(j) && !in_routes(s.routes@, j),
        s.ignored@.contains(j) ==> !in_unassigned(s.unassigned@, j) && !s.locked@.contains(j) && !in_routes(s.routes@, j),
        in_unassigned(s.unassigned@, j) ==> !s.locked@.contains(j) && !in_routes(s.routes@, j),
        s.locked@.contains(j) ==> !in_routes(s.routes@, j),
{
    assert(s.occurrences(j) <= 1);
}

/// In every reachable state, the union of the working sets and the jobs in
/// routes is the full job set.
pub proof fn lemma_working_sets_cover(s: SolutionContext, jobs: Seq<Job>, j: usize)
    requires
        s.wf(jobs),
    ensures
        j < jobs.len() <==> (s.required@.contains(j) || s.ignored@.contains(j) || in_unassigned(s.unassigned@, j)
            || s.locked@.contains(j) || in_routes(s.routes@, j)),
{
    assert(s.occurrences(j) >= 1 <==> j < jobs.len());
}

/// In every reachable state, each tour starts with its start sentinel, ends
/// with an end sentinel exactly when its actor's shift has an end, and holds
/// no job at position 0.
pub proof fn lemma_tours_bracketed(s: SolutionContext, jobs: Seq<Job>, r: int)
    requires
        s.wf(jobs),
        0 <= r < s.routes@.len(),
    ensures
        s.routes@[r].tour.activities@.len() >= 1,
        s.routes@[r].tour.activities@[0].job.is_none(),
        s.routes@[r].tour.has_end == s.registry.actors@[s.routes@[r].actor as int].end_location.is_some(),
        s.routes@[r].tour.has_end ==> s.routes@[r].tour.activities@.len() >= 2
            && s.routes@[r].tour.activities@.last().job.is_none(),
{
    assert(s.routes@[r].tour.wf());
}

/// In every reachable state, the actor of each committed route is marked used
/// and owns no other route.
pub proof fn lemma_committed_actor_used_once(s: SolutionContext, jobs: Seq<Job>, r: int)
    requires
        s.wf(jobs),
        0 <= r < s.routes@.len(),
    ensures
        s.registry.used@[s.routes@[r].actor as int],
        forall|q: int| 0 <= q < s.routes@.len() && q != r ==> (#[trigger] s.routes@[q]).actor != s.routes@[r].actor,
{
    assert(s.routes@[r].actor < s.registry.actors@.len());
}

} // verus!
