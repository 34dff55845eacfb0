//! The ordered composition of constraint modules, evaluated for every
//! candidate insertion.
use vstd::prelude::*;
use crate::models::{Actor, Job};
use crate::solution::{SolutionContext, RouteContext, in_routes, in_unassigned};
use crate::constraints::{ActivityContext, ActivityConstraintViolation};
use crate::breaks::{BreakModule, BreakRequirement, break_activity, break_is_required, breaks_demoted,
    break_state_accepted, demote_unassigned_breaks, route_vehicle, vehicle_routed};
use crate::priorities::{PriorityModule, priority_activity, priority_estimate};
use crate::capacity::{CapacityModule, TimeModule, capacity_violation, time_violation, activities_load, route_load};
use crate::conditional::{ConditionalJobModule, JobRequirement, reclassified};

verus! {

/// Largest number of modules in one pipeline.
pub const MAX_MODULES: usize = 1024;

/// Bound on the magnitude of one module's soft cost.
pub const MAX_SOFT_COST: i128 = 0x4_0000_0000_0000_0000_0000_0000;

/// One constraint module of the pipeline.
#[derive(Clone, Copy, Debug, PartialEq, Eq, Structural)]
pub enum ConstraintModule {
    Break(BreakModule),
    Priority(PriorityModule),
    Capacity(CapacityModule),
    Time(TimeModule),
}

pub open spec fn module_hard_route(m: ConstraintModule, actor: Actor, load: u64, job: Job) -> Option<i32> {
    match m {
        ConstraintModule::Capacity(c) => capacity_violation(c.code, actor, load, job),
        ConstraintModule::Time(t) => time_violation(t.code, actor, job),
        _ => None,
    }
}

/// The first hard route violation among the modules from `i` on.
pub open spec fn hard_route_from(ms: Seq<ConstraintModule>, i: int, actor: Actor, load: u64, job: Job) -> Option<i32>
    decreases ms.len() - i,
{
    if i < 0 || i >= ms.len() {
        None
    } else {
        match module_hard_route(ms[i], actor, load, job) {
            Some(c) => Some(c),
            None => hard_route_from(ms, i + 1, actor, load, job),
        }
    }
}

pub open spec fn module_hard_activity(m: ConstraintModule, jobs: Seq<Job>, a: ActivityContext) -> Option<ActivityConstraintViolation> {
    match m {
        ConstraintModule::Break(b) => break_activity(b.code, jobs, a),
        ConstraintModule::Priority(p) => priority_activity(p.code, jobs, a),
        _ => None,
    }
}

/// The first hard activity violation among the modules from `i` on.
pub open spec fn hard_activity_from(ms: Seq<ConstraintModule>, i: int, jobs: Seq<Job>, a: ActivityContext) -> Option<ActivityConstraintViolation>
    decreases ms.len() - i,
{
    if i < 0 || i >= ms.len() {
        None
    } else {
        match module_hard_activity(ms[i], jobs, a) {
            Some(v) => Some(v),
            None => hard_activity_from(ms, i + 1, jobs, a),
        }
    }
}

pub open spec fn module_soft_route(m: ConstraintModule, job: Job, max_cost: u64) -> int {
    match m {
        ConstraintModule::Priority(_) => priority_estimate(job, max_cost),
        _ => 0,
    }
}

/// The sum of the soft route costs of the first `n` modules.
pub open spec fn soft_route_prefix(ms: Seq<ConstraintModule>, n: int, job: Job, max_cost: u64) -> int
    decreases n,
{
    if n <= 0 {
        0
    } else {
        soft_route_prefix(ms, n - 1, job, max_cost) + module_soft_route(ms[n - 1], job, max_cost)
    }
}

/// Whether the pipeline holds a break module.
pub open spec fn has_break(ms: Seq<ConstraintModule>) -> bool {
    exists|i: int| 0 <= i < ms.len() && (#[trigger] ms[i]) is Break
}

/// The routes keep their actors and tours, and their load caches are recomputed.
pub open spec fn routes_refreshed(pre: Seq<RouteContext>, post: Seq<RouteContext>) -> bool {
    &&& post.len() == pre.len()
    &&& forall|r: int| 0 <= r < pre.len() ==> {
        &&& (#[trigger] post[r]).actor == pre[r].actor
        &&& post[r].tour == pre[r].tour
        &&& post[r].load == activities_load(pre[r].tour.activities@)
    }
}

/// `s` with its routes replaced.
pub open spec fn with_routes(s: SolutionContext, routes: Vec<RouteContext>) -> SolutionContext {
    SolutionContext { routes, ..s }
}

/// Whether `post` is what broadcasting the solution state through the modules
/// `ms` makes of `pre`: route caches recomputed, then, with a break module,
/// unassigned breaks demoted and required/ignored repartitioned.
pub open spec fn solution_state_accepted(ms: Seq<ConstraintModule>, pre: SolutionContext, post: SolutionContext, jobs: Seq<Job>) -> bool {
    &&& routes_refreshed(pre.routes@, post.routes@)
    &&& if has_break(ms) {
        break_state_accepted(with_routes(pre, post.routes), post, jobs)
    } else {
        post == with_routes(pre, post.routes)
    }
}

/// Every ignored job is a break.
pub open spec fn ignored_breaks_only(s: SolutionContext, jobs: Seq<Job>) -> bool {
    forall|x: usize| #[trigger] s.ignored@.contains(x) ==> jobs[x as int].is_break_spec()
}

/// An ordered collection of constraint modules.
#[derive(Clone, Debug)]
pub struct ConstraintPipeline {
    pub modules: Vec<ConstraintModule>,
}

impl ConstraintPipeline {
    pub open spec fn wf(&self) -> bool {
        self.modules@.len() <= MAX_MODULES
    }

    pub fn new(modules: Vec<ConstraintModule>) -> (p: ConstraintPipeline)
        requires
            modules@.len() <= MAX_MODULES,
        ensures
            p.wf(),
            p.modules@ == modules@,
    {
        ConstraintPipeline { modules }
    }

    /// The first hard route violation, in module order.
    pub fn hard_route(&self, actor: &Actor, route: &RouteContext, job: &Job) -> (r: Option<i32>)
        ensures
            r == hard_route_from(self.modules@, 0, *actor, route.load, *job),
    {
        let mut i: usize = 0;
        while i < self.modules.len()
            invariant
                i <= self.modules@.len(),
                hard_route_from(self.modules@, 0, *actor, route.load, *job)
                    == hard_route_from(self.modules@, i as int, *actor, route.load, *job),
            decreases self.modules@.len() - i,
        {
            let v = match self.modules[i] {
                ConstraintModule::Capacity(c) => c.evaluate_route(actor, route, job),
                ConstraintModule::Time(t) => t.evaluate_route(actor, job),
                _ => None,
            };
            if v.is_some() {
                return v;
            }
            i = i + 1;
        }
        None
    }

    /// The first hard activity violation, in module order.
    pub fn hard_activity(&self, jobs: &Vec<Job>, a: &ActivityContext) -> (r: Option<ActivityConstraintViolation>)
        requires
            a.jobs_in(jobs@.len()),
        ensures
            r == hard_activity_from(self.modules@, 0, jobs@, *a),
    {
        let mut i: usize = 0;
        while i < self.modules.len()
            invariant
                i <= self.modules@.len(),
                a.jobs_in(jobs@.len()),
                hard_activity_from(self.modules@, 0, jobs@, *a)
                    == hard_activity_from(self.modules@, i as int, jobs@, *a),
            decreases self.modules@.len() - i,
        {
            let v = match self.modules[i] {
                ConstraintModule::Break(b) => b.evaluate_activity(jobs, a),
                ConstraintModule::Priority(p) => p.evaluate_activity(jobs, a),
                _ => None,
            };
            if v.is_some() {
                return v;
            }
            i = i + 1;
        }
        None
    }

    /// The sum of the soft route costs of all modules.
    pub fn soft_route(&self, job: &Job, max_cost: u64) -> (r: i128)
        requires
            self.wf(),
        ensures
            r == soft_route_prefix(self.modules@, self.modules@.len() as int, *job, max_cost),
            -(MAX_MODULES as int) * MAX_SOFT_COST <= r <= (MAX_MODULES as int) * MAX_SOFT_COST,
    {
        let mut total: i128 = 0;
        let mut i: usize = 0;
        while i < self.modules.len()
            invariant
                self.wf(),
                i <= self.modules@.len(),
                total == soft_route_prefix(self.modules@, i as int, *job, max_cost),
                -(i as int) * MAX_SOFT_COST <= total <= (i as int) * MAX_SOFT_COST,
            decreases self.modules@.len() - i,
        {
            let c: i128 = match self.modules[i] {
                ConstraintModule::Priority(p) => p.estimate_job(job, max_cost),
                _ => 0,
            };
            assert(-MAX_SOFT_COST <= c <= MAX_SOFT_COST);
            total = total + c;
            i = i + 1;
        }
        total
    }

    /// Recomputes the caches of one route.
    pub fn accept_route_state(&self, route: &mut RouteContext)
        ensures
            final(route).actor == old(route).actor,
            final(route).tour == old(route).tour,
            final(route).load == activities_load(old(route).tour.activities@),
    {
        route.load = route_load(route);
    }

    fn refresh_routes(&self, s: &mut SolutionContext)
        ensures
            routes_refreshed(old(s).routes@, final(s).routes@),
            *final(s) == with_routes(*old(s), final(s).routes),
    {
        let ghost pre = *s;
        let mut r: usize = 0;
        while r < s.routes.len()
            invariant
                r <= s.routes@.len(),
                s.routes@.len() == pre.routes@.len(),
                *s == with_routes(pre, s.routes),
                forall|q: int| 0 <= q < s.routes@.len() ==> {
                    &&& (#[trigger] s.routes@[q]).actor == pre.routes@[q].actor
                    &&& s.routes@[q].tour == pre.routes@[q].tour
                    &&& (q < r ==> s.routes@[q].load == activities_load(pre.routes@[q].tour.activities@))
                },
            decreases s.routes@.len() - r,
        {
            let load = route_load(&s.routes[r]);
            s.routes[r].load = load;
            r = r + 1;
        }
    }

    fn holds_break(&self) -> (r: bool)
        ensures
            r == has_break(self.modules@),
    {
        let mut i: usize = 0;
        while i < self.modules.len()
            invariant
                i <= self.modules@.len(),
                forall|q: int| 0 <= q < i ==> !((#[trigger] self.modules@[q]) is Break),
            decreases self.modules@.len() - i,
        {
            if let ConstraintModule::Break(_) = self.modules[i] {
                return true;
            }
            i = i + 1;
        }
        false
    }

    /// Called after a job was committed to route `route_index`: refreshes that
    /// route's caches, then broadcasts the solution state.
    pub fn accept_insertion(&self, s: &mut SolutionContext, route_index: usize, jobs: &Vec<Job>)
        requires
            old(s).wf(jobs@),
            route_index < old(s).routes@.len(),
        ensures
            solution_state_accepted(self.modules@, *old(s), *final(s), jobs@),
            final(s).wf(jobs@),
            has_break(self.modules@) ==> forall|x: usize| #[trigger] in_unassigned(final(s).unassigned@, x)
                ==> !jobs[x as int].is_break_spec(),
            ignored_breaks_only(*old(s), jobs@) ==> ignored_breaks_only(*final(s), jobs@),
            forall|x: usize| #[trigger] in_routes(final(s).routes@, x) <==> in_routes(old(s).routes@, x),
            final(s).locked == old(s).locked,
    {
        self.accept_solution_state(s, jobs);
    }

    /// Recomputes the route caches and, with a break module, demotes the
    /// unassigned breaks and repartitions `required` and `ignored`.
    pub fn accept_solution_state(&self, s: &mut SolutionContext, jobs: &Vec<Job>)
        requires
            old(s).wf(jobs@),
        ensures
            solution_state_accepted(self.modules@, *old(s), *final(s), jobs@),
            final(s).wf(jobs@),
            has_break(self.modules@) ==> forall|x: usize| #[trigger] in_unassigned(final(s).unassigned@, x)
                ==> !jobs[x as int].is_break_spec(),
            ignored_breaks_only(*old(s), jobs@) ==> ignored_breaks_only(*final(s), jobs@),
            forall|x: usize| #[trigger] in_routes(final(s).routes@, x) <==> in_routes(old(s).routes@, x),
            final(s).locked == old(s).locked,
            final(s).registry == old(s).registry,
            forall|e: (usize, i32)| #[trigger] final(s).unassigned@.contains(e) ==> old(s).unassigned@.contains(e),
    {
        let ghost pre = *s;
        self.refresh_routes(s);
        let ghost refreshed = *s;
        proof {
            lemma_refresh_keeps_wf(pre, refreshed, jobs@);
            assert forall|x: usize| #[trigger] in_routes(refreshed.routes@, x) <==> in_routes(pre.routes@, x) by {
                assert(refreshed.occurrences(x) == pre.occurrences(x));
            }
        }
        if self.holds_break() {
            let conditional = ConditionalJobModule::new(BreakRequirement {});
            conditional.accept_solution_state(s, jobs);
            let ghost mid = *s;
            proof {
                lemma_reclassify_keeps_wf(refreshed, mid, jobs@);
            }
            demote_unassigned_breaks(s, jobs);
            proof {
                lemma_demote_keeps_wf(mid, *s, jobs@);
                assert(reclassified(BreakRequirement {}, with_routes(pre, s.routes), mid, jobs@));
                if ignored_breaks_only(pre, jobs@) {
                    assert forall|x: usize| #[trigger] s.ignored@.contains(x) implies jobs@[x as int].is_break_spec() by {
                        if mid.ignored@.contains(x) && !jobs@[x as int].is_break_spec() {
                            assert(BreakRequirement {}.holds(refreshed, jobs@, x));
                        }
                    }
                }
            }
        }
    }
}

proof fn lemma_refresh_keeps_wf(pre: SolutionContext, post: SolutionContext, jobs: Seq<Job>)
    requires
        pre.wf(jobs),
        routes_refreshed(pre.routes@, post.routes@),
        post == with_routes(pre, post.routes),
    ensures
        post.wf(jobs),
        forall|x: usize| #[trigger] post.occurrences(x) == pre.occurrences(x),
{
    assert forall|x: usize| #[trigger] post.occurrences(x) == pre.occurrences(x) by {
        if in_routes(pre.routes@, x) {
            let r = choose|r: int| 0 <= r < pre.routes@.len() && #[trigger] pre.routes@[r].tour.serves(x);
            assert(post.routes@[r].tour.serves(x));
        }
        if in_routes(post.routes@, x) {
            let r = choose|r: int| 0 <= r < post.routes@.len() && #[trigger] post.routes@[r].tour.serves(x);
            assert(pre.routes@[r].tour.serves(x));
        }
    }
    assert forall|r: int| 0 <= r < post.routes@.len() implies {
        &&& (#[trigger] post.routes@[r]).actor < post.registry.actors@.len()
        &&& post.registry.used@[post.routes@[r].actor as int]
        &&& post.routes@[r].tour.wf()
        &&& post.routes@[r].tour.has_end == post.registry.actors@[post.routes@[r].actor as int].end_location.is_some()
    } by {
        assert(pre.routes@[r].actor == post.routes@[r].actor);
    }
    assert forall|r1: int, r2: int|
        0 <= r1 < post.routes@.len() && 0 <= r2 < post.routes@.len() && r1 != r2
            implies #[trigger] post.routes@[r1].actor != #[trigger] post.routes@[r2].actor by {
        assert(pre.routes@[r1].actor != pre.routes@[r2].actor);
    }
    assert forall|a: int| 0 <= a < post.registry.used@.len() && #[trigger] post.registry.used@[a]
        implies exists|r: int| 0 <= r < post.routes@.len() && #[trigger] post.routes@[r].actor == a by {
        let r = choose|r: int| 0 <= r < pre.routes@.len() && #[trigger] pre.routes@[r].actor == a;
        assert(post.routes@[r].actor == a);
    }
}

proof fn lemma_demote_keeps_wf(pre: SolutionContext, post: SolutionContext, jobs: Seq<Job>)
    requires
        pre.wf(jobs),
        breaks_demoted(pre, post, jobs),
    ensures
        post.wf(jobs),
{
    assert forall|x: usize| #[trigger] post.occurrences(x) == pre.occurrences(x) by {
        if in_unassigned(pre.unassigned@, x) {
            assert(pre.occurrences(x) >= 1);
        }
    }
    assert(post.disjoint());
    assert(post.covers(jobs.len()));
}

proof fn lemma_reclassify_keeps_wf(pre: SolutionContext, post: SolutionContext, jobs: Seq<Job>)
    requires
        pre.wf(jobs),
        reclassified(BreakRequirement {}, pre, post, jobs),
    ensures
        post.wf(jobs),
{
    assert forall|x: usize| #[trigger] post.occurrences(x) == pre.occurrences(x) by {
        assert(pre.occurrences(x) <= 1);
    }
    assert(post.disjoint());
    assert(post.covers(jobs.len()));
}

} // verus!

verus! {

/// Two solutions hold the same job sets, the same routes with the same caches,
/// and the same registry.
pub open spec fn same_state(a: SolutionContext, b: SolutionContext) -> bool {
    &&& forall|x: usize| #[trigger] a.required@.contains(x) <==> b.required@.contains(x)
    &&& forall|x: usize| #[trigger] a.ignored@.contains(x) <==> b.ignored@.contains(x)
    &&& forall|e: (usize, i32)| #[trigger] a.unassigned@.contains(e) <==> b.unassigned@.contains(e)
    &&& a.locked == b.locked
    &&& a.routes@ == b.routes@
    &&& a.registry == b.registry
    &&& a.max_cost == b.max_cost
}

/// Whether `x` is a break whose vehicle owns a route of `s`.
pub open spec fn break_of_routed_vehicle(s: SolutionContext, jobs: Seq<Job>, x: usize) -> bool {
    &&& jobs[x as int].is_break_spec()
    &&& jobs[x as int].dimens.vehicle_id matches Some(v) && vehicle_routed(s, v)
}

proof fn lemma_same_vehicles(a: SolutionContext, b: SolutionContext, v: u64)
    requires
        a.registry == b.registry,
        a.routes@.len() == b.routes@.len(),
        forall|r: int| 0 <= r < a.routes@.len() ==> (#[trigger] a.routes@[r]).actor == b.routes@[r].actor,
    ensures
        vehicle_routed(a, v) <==> vehicle_routed(b, v),
{
    if vehicle_routed(a, v) {
        let r = choose|r: int| 0 <= r < a.routes@.len() && #[trigger] route_vehicle(a, r) == v;
        assert(route_vehicle(b, r) == v);
    }
    if vehicle_routed(b, v) {
        let r = choose|r: int| 0 <= r < b.routes@.len() && #[trigger] route_vehicle(b, r) == v;
        assert(route_vehicle(a, r) == v);
    }
}

proof fn lemma_requirement_same(a: SolutionContext, b: SolutionContext, jobs: Seq<Job>, y: usize)
    requires
        a.registry == b.registry,
        a.required == b.required,
        a.routes@.len() == b.routes@.len(),
        forall|r: int| 0 <= r < a.routes@.len() ==> (#[trigger] a.routes@[r]).actor == b.routes@[r].actor,
    ensures
        break_is_required(a, jobs, y) == break_is_required(b, jobs, y),
{
    if let Some(w) = jobs[y as int].dimens.vehicle_id {
        lemma_same_vehicles(a, b, w);
    }
}

/// Broadcasting the solution state twice with no mutation in between yields
/// the same job sets and route caches as broadcasting it once. Two families
/// of states are excluded, because there the second broadcast moves a break
/// back to `required`: a break of a routed vehicle waits in `unassigned`
/// while some required or ignored job meets its requirement (the first
/// broadcast demotes that break to `ignored` and leaves `required` non-empty);
/// or `required` is empty while `ignored` holds a job that is not a break and
/// a break of a routed vehicle (the first broadcast fills `required`).
pub proof fn lemma_accept_solution_state_idempotent(
    ms: Seq<ConstraintModule>,
    s1: SolutionContext,
    s2: SolutionContext,
    s3: SolutionContext,
    jobs: Seq<Job>,
)
    requires
        s1.wf(jobs),
        solution_state_accepted(ms, s1, s2, jobs),
        solution_state_accepted(ms, s2, s3, jobs),
        !(has_break(ms)
            && (exists|x: usize| in_unassigned(s1.unassigned@, x) && #[trigger] break_of_routed_vehicle(s1, jobs, x))
            && (exists|y: usize| (s1.required@.contains(y) || s1.ignored@.contains(y))
                && #[trigger] break_is_required(s1, jobs, y))),
        !(has_break(ms) && s1.required@.len() == 0
            && (exists|y: usize| #[trigger] s1.ignored@.contains(y) && !jobs[y as int].is_break_spec())
            && (exists|x: usize| s1.ignored@.contains(x) && #[trigger] break_of_routed_vehicle(s1, jobs, x))),
    ensures
        same_state(s2, s3),
{
    assert(s3.routes@ =~= s2.routes@) by {
        assert forall|r: int| 0 <= r < s3.routes@.len() implies s3.routes@[r] == s2.routes@[r] by {
            assert(s2.routes@[r].tour == s1.routes@[r].tour);
        }
    }
    if has_break(ms) {
        let p1 = with_routes(s1, s2.routes);
        let p2 = with_routes(s2, s3.routes);
        let m1 = choose|mid: SolutionContext| #[trigger] reclassified(BreakRequirement {}, p1, mid, jobs)
            && breaks_demoted(mid, s2, jobs);
        let m2 = choose|mid: SolutionContext| #[trigger] reclassified(BreakRequirement {}, p2, mid, jobs)
            && breaks_demoted(mid, s3, jobs);
        // s2 holds no unassigned break, so the second demotion moves nothing.
        assert forall|x: usize| in_unassigned(s2.unassigned@, x) implies !jobs[x as int].is_break_spec() by {}
        assert forall|x: usize| (s2.required@.contains(x) || s2.ignored@.contains(x))
            implies #[trigger] break_is_required(p2, jobs, x) == (m1.required@.contains(x)) by {
            lemma_same_vehicles(p1, s1, 0);
            if jobs[x as int].is_break_spec() {
                if let Some(v) = jobs[x as int].dimens.vehicle_id {
                    lemma_same_vehicles(p2, p1, v);
                    lemma_same_vehicles(p1, s1, v);
                    if m1.required@.contains(x) {
                        assert(s2.required@.contains(x));
                        assert(s2.required@.len() > 0);
                    } else if s2.required@.len() > 0 && vehicle_routed(p1, v) {
                        let y = s2.required@[0];
                        assert(s2.required@.contains(y));
                        assert(m1.required@.contains(y));
                        if s1.required@.contains(x) || s1.ignored@.contains(x) {
                            assert(!break_is_required(p1, jobs, x));
                            assert(s1.required@.len() == 0);
                            assert(s1.ignored@.contains(y) && !jobs[y as int].is_break_spec());
                            assert(break_of_routed_vehicle(s1, jobs, x));
                        } else {
                            assert(in_unassigned(s1.unassigned@, x));
                            assert(break_of_routed_vehicle(s1, jobs, x));
                            lemma_requirement_same(p1, s1, jobs, y);
                        }
                    }
                }
            } else {
                if !m1.required@.contains(x) {
                    if s2.ignored@.contains(x) {
                        assert(m1.ignored@.contains(x) || (in_unassigned(s1.unassigned@, x) && jobs[x as int].is_break_spec()));
                    }
                }
            }
        }
        assert forall|x: usize| #[trigger] s2.required@.contains(x) <==> s3.required@.contains(x) by {
            if s2.required@.contains(x) || s2.ignored@.contains(x) {
                assert(break_is_required(p2, jobs, x) == m1.required@.contains(x));
            }
        }
        assert forall|x: usize| #[trigger] s2.ignored@.contains(x) <==> s3.ignored@.contains(x) by {
            assert(s1.occurrences(x) <= 1);
            if s2.required@.contains(x) || s2.ignored@.contains(x) {
                assert(break_is_required(p2, jobs, x) == m1.required@.contains(x));
            }
            if m1.required@.contains(x) {
                lemma_requirement_same(p1, s1, jobs, x);
            }
            if in_unassigned(m2.unassigned@, x) {
                assert(in_unassigned(s2.unassigned@, x));
            }
        }
        assert forall|e: (usize, i32)| #[trigger] s2.unassigned@.contains(e) <==> s3.unassigned@.contains(e) by {
            if s2.unassigned@.contains(e) {
                assert(in_unassigned(s2.unassigned@, e.0)) by {
                    let k = choose|k: int| 0 <= k < s2.unassigned@.len() && s2.unassigned@[k] == e;
                    assert(s2.unassigned@[k].0 == e.0);
                }
            }
        }
    }
}

} // verus!
