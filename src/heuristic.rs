//! The insertion heuristic: repeatedly selects jobs, reduces their evaluations
//! to one insertion, and applies it, until no job is required.
use vstd::prelude::*;
use crate::models::{Activity, Tour};
use crate::solution::{SolutionContext, RouteContext, in_routes, in_unassigned, lemma_in_unassigned_push};
use crate::problem::InsertionContext;
use crate::evaluator::InsertionPosition;
use crate::insertions::{InsertionResult, ResultModel, PairJobMapReducer, ResultSelector, applicable, result_job,
    pair_fold_with, batch_results};
use crate::pipeline::{ignored_breaks_only, has_break, solution_state_accepted};
use crate::lemmas::lemma_push_contains;

verus! {

/// Signals that the run must stop.
pub trait Quota {
    fn is_reached(&self) -> bool;
}

/// Chooses the jobs offered in one insertion step. It may reorder `required`
/// and nothing else.
pub trait JobSelector {
    /// Whether the selector offers at least one job whenever one is required.
    spec fn never_empty(&self) -> bool;

    fn select(&self, ctx: &mut InsertionContext) -> (jobs: Vec<usize>)
        requires
            old(ctx).wf(),
        ensures
            final(ctx).wf(),
            final(ctx).problem == old(ctx).problem,
            final(ctx).solution == (SolutionContext { required: final(ctx).solution.required, ..old(ctx).solution }),
            final(ctx).solution.required@.to_multiset() == old(ctx).solution.required@.to_multiset(),
            forall|k: int| 0 <= k < jobs@.len() ==> final(ctx).solution.required@.contains(#[trigger] jobs@[k]),
            self.never_empty() && old(ctx).solution.required@.len() > 0 ==> jobs@.len() > 0;
}

/// Reduces the evaluations of a batch of jobs to one insertion result.
pub trait JobMapReducer {
    /// Whether `r` is a result the reducer may return for this batch.
    spec fn reduces_to(&self, ctx: InsertionContext, jobs: Seq<usize>, policy: InsertionPosition, r: ResultModel) -> bool;

    fn reduce(&self, ctx: &InsertionContext, jobs: &Vec<usize>, policy: InsertionPosition) -> (r: InsertionResult)
        requires
            ctx.wf(),
            forall|k: int| 0 <= k < jobs@.len() ==> #[trigger] jobs@[k] < ctx.problem.jobs@.len(),
        ensures
            applicable(ctx.solution, jobs@, r.model()),
            self.reduces_to(*ctx, jobs@, policy, r.model()),
            jobs@.len() > 0 ==> result_job(r.model()) is Some;
}

/// Whether the reducer may report job `e.0` as failed with code `e.1`.
pub open spec fn reported_failure<R: JobMapReducer>(reducer: R, policy: InsertionPosition, e: (usize, i32)) -> bool {
    exists|c: InsertionContext, b: Seq<usize>| #[trigger] reducer.reduces_to(c, b, policy,
        ResultModel::Failure { code: e.1, job: Some(e.0) })
}

impl<S: ResultSelector> JobMapReducer for PairJobMapReducer<S> {
    open spec fn reduces_to(&self, ctx: InsertionContext, jobs: Seq<usize>, policy: InsertionPosition, r: ResultModel) -> bool {
        r == pair_fold_with(self.result_selector, batch_results(ctx, jobs, policy), jobs.len() as int)
    }

    fn reduce(&self, ctx: &InsertionContext, jobs: &Vec<usize>, policy: InsertionPosition) -> (r: InsertionResult) {
        self.reduce_jobs(ctx, jobs, policy)
    }
}

/// Offers every required job, in order.
#[derive(Clone, Copy, Debug, PartialEq, Eq, Structural)]
pub struct AllJobSelector {}

impl Default for AllJobSelector {
    fn default() -> (r: Self)
        ensures
            r == (AllJobSelector {}),
    {
        AllJobSelector {}
    }
}

impl AllJobSelector {
    pub fn new() -> (r: AllJobSelector)
        ensures
            r == (AllJobSelector {}),
    {
        AllJobSelector {}
    }
}

/// A copy of a list of job indices.
pub fn copy_jobs(v: &Vec<usize>) -> (r: Vec<usize>)
    ensures
        r@ == v@,
{
    let mut r: Vec<usize> = Vec::new();
    let mut i: usize = 0;
    while i < v.len()
        invariant
            i <= v@.len(),
            r@ == v@.take(i as int),
        decreases v@.len() - i,
    {
        r.push(v[i]);
        assert(r@ =~= v@.take(i + 1));
        i = i + 1;
    }
    assert(r@ =~= v@);
    r
}

impl JobSelector for AllJobSelector {
    open spec fn never_empty(&self) -> bool {
        true
    }

    fn select(&self, ctx: &mut InsertionContext) -> (jobs: Vec<usize>) {
        self.select_jobs(ctx)
    }
}

impl AllJobSelector {
    /// Every required job, in order.
    pub fn select_jobs(&self, ctx: &InsertionContext) -> (jobs: Vec<usize>)
        ensures
            jobs@ == ctx.solution.required@,
    {
        copy_jobs(&ctx.solution.required)
    }
}

/// The first `n` elements of `s` other than `x`, in order.
pub open spec fn without(s: Seq<usize>, x: usize, n: int) -> Seq<usize>
    decreases n,
{
    if n <= 0 {
        Seq::empty()
    } else if s[n - 1] == x {
        without(s, x, n - 1)
    } else {
        without(s, x, n - 1).push(s[n - 1])
    }
}

/// Removes every occurrence of `x`, keeping the order of the rest.
pub fn remove_job(v: &mut Vec<usize>, x: usize)
    ensures
        final(v)@ == without(old(v)@, x, old(v)@.len() as int),
        forall|y: usize| #[trigger] final(v)@.contains(y) <==> (old(v)@.contains(y) && y != x),
        old(v)@.contains(x) ==> final(v)@.len() < old(v)@.len(),
        final(v)@.len() <= old(v)@.len(),
{
    let ghost pre = v@;
    let mut kept: Vec<usize> = Vec::new();
    let mut i: usize = 0;
    while i < v.len()
        invariant
            v@ == pre,
            i <= pre.len(),
            forall|y: usize| #[trigger] kept@.contains(y) <==> (pre.take(i as int).contains(y) && y != x),
            kept@.len() <= i,
            pre.take(i as int).contains(x) ==> kept@.len() < i,
            kept@ == without(pre, x, i as int),
        decreases pre.len() - i,
    {
        let ghost old_kept = kept@;
        let y = v[i];
        if y != x {
            kept.push(y);
        }
        proof {
            assert forall|z: usize| #[trigger] kept@.contains(z) <==> (pre.take(i + 1).contains(z) && z != x) by {
                crate::lemmas::lemma_take_push_contains(pre, i as int, z);
                lemma_push_contains(old_kept, y, z);
            }
            crate::lemmas::lemma_take_push_contains(pre, i as int, x);
        }
        i = i + 1;
    }
    proof {
        crate::lemmas::lemma_take_full(pre);
    }
    *v = kept;
}

/// Number of the first `n` jobs that no route serves.
pub open spec fn unrouted_count(routes: Seq<RouteContext>, n: int) -> nat
    decreases n,
{
    if n <= 0 {
        0
    } else {
        unrouted_count(routes, n - 1) + if in_routes(routes, (n - 1) as usize) { 0nat } else { 1nat }
    }
}

proof fn lemma_unrouted_count(r1: Seq<RouteContext>, r2: Seq<RouteContext>, n: int, j: usize)
    requires
        0 <= n <= usize::MAX + 1,
        forall|x: usize| #[trigger] in_routes(r1, x) ==> in_routes(r2, x),
    ensures
        unrouted_count(r2, n) <= unrouted_count(r1, n),
        (j < n && in_routes(r2, j) && !in_routes(r1, j)) ==> unrouted_count(r2, n) < unrouted_count(r1, n),
    decreases n,
{
    if n > 0 {
        lemma_unrouted_count(r1, r2, n - 1, j);
        assert(in_routes(r1, (n - 1) as usize) ==> in_routes(r2, (n - 1) as usize));
    }
}

/// Whether `post` is `pre` with the unassigned jobs moved back to `required`.
pub open spec fn unassigned_drained(pre: SolutionContext, post: SolutionContext) -> bool {
    &&& forall|x: usize| #[trigger] post.required@.contains(x) <==> (pre.required@.contains(x) || in_unassigned(pre.unassigned@, x))
    &&& post.unassigned@.len() == 0
    &&& post == (SolutionContext { required: post.required, unassigned: post.unassigned, ..pre })
}

/// Whether `post` is `pre` with the required jobs moved to `unassigned` with code 0.
pub open spec fn required_drained(pre: SolutionContext, post: SolutionContext) -> bool {
    &&& forall|e: (usize, i32)| #[trigger] post.unassigned@.contains(e)
        <==> (pre.unassigned@.contains(e) || (e.1 == 0 && pre.required@.contains(e.0)))
    &&& forall|x: usize| #[trigger] in_unassigned(post.unassigned@, x)
        <==> (in_unassigned(pre.unassigned@, x) || pre.required@.contains(x))
    &&& post.required@.len() == 0
    &&& post == (SolutionContext { required: post.required, unassigned: post.unassigned, ..pre })
}

/// Moves the unassigned jobs back to `required` and broadcasts the solution state.
pub fn prepare_ctx(ctx: &mut InsertionContext)
    requires
        old(ctx).wf(),
    ensures
        final(ctx).wf(),
        final(ctx).problem == old(ctx).problem,
        exists|mid: SolutionContext| #[trigger] unassigned_drained(old(ctx).solution, mid)
            && solution_state_accepted(old(ctx).problem.pipeline.modules@, mid, final(ctx).solution, old(ctx).problem.jobs@),
        ignored_breaks_only(old(ctx).solution, old(ctx).problem.jobs@) ==> ignored_breaks_only(final(ctx).solution, old(ctx).problem.jobs@),
        forall|x: usize| #[trigger] in_routes(final(ctx).solution.routes@, x) <==> in_routes(old(ctx).solution.routes@, x),
        forall|e: (usize, i32)| !(#[trigger] final(ctx).solution.unassigned@.contains(e)),
{
    let ghost pre = ctx.solution;
    let mut i: usize = 0;
    while i < ctx.solution.unassigned.len()
        invariant
            ctx.problem == old(ctx).problem,
            ctx.solution == (SolutionContext { required: ctx.solution.required, ..pre }),
            i <= pre.unassigned@.len(),
            forall|x: usize| #[trigger] ctx.solution.required@.contains(x)
                <==> (pre.required@.contains(x) || in_unassigned(pre.unassigned@.take(i as int), x)),
        decreases pre.unassigned@.len() - i,
    {
        let ghost old_req = ctx.solution.required@;
        let j = ctx.solution.unassigned[i].0;
        ctx.solution.required.push(j);
        proof {
            assert forall|x: usize| #[trigger] ctx.solution.required@.contains(x)
                <==> (pre.required@.contains(x) || in_unassigned(pre.unassigned@.take(i + 1), x)) by {
                crate::solution::lemma_in_unassigned_take_push(pre.unassigned@, i as int, x);
                lemma_push_contains(old_req, j, x);
            }
        }
        i = i + 1;
    }
    assert(pre.unassigned@.take(pre.unassigned@.len() as int) =~= pre.unassigned@);
    ctx.solution.unassigned = Vec::new();
    let ghost mid = ctx.solution;
    proof {
        assert(unassigned_drained(pre, mid));
        assert forall|x: usize| #[trigger] mid.occurrences(x) == pre.occurrences(x) by {
            if in_unassigned(pre.unassigned@, x) {
                assert(pre.occurrences(x) <= 1);
            }
        }
        assert(mid.disjoint());
        assert(mid.covers(ctx.problem.jobs@.len()));
    }
    ctx.problem.pipeline.accept_solution_state(&mut ctx.solution, &ctx.problem.jobs);
}

/// Moves the remaining required jobs to `unassigned` with code 0 and broadcasts
/// the solution state.
pub fn finalize_ctx(ctx: &mut InsertionContext)
    requires
        old(ctx).wf(),
    ensures
        final(ctx).wf(),
        final(ctx).problem == old(ctx).problem,
        exists|mid: SolutionContext| #[trigger] required_drained(old(ctx).solution, mid)
            && solution_state_accepted(old(ctx).problem.pipeline.modules@, mid, final(ctx).solution, old(ctx).problem.jobs@),
        (!has_break(old(ctx).problem.pipeline.modules@) || ignored_breaks_only(old(ctx).solution, old(ctx).problem.jobs@))
            ==> final(ctx).solution.required@.len() == 0,
        ignored_breaks_only(old(ctx).solution, old(ctx).problem.jobs@) ==> ignored_breaks_only(final(ctx).solution, old(ctx).problem.jobs@),
        forall|x: usize| #[trigger] in_routes(final(ctx).solution.routes@, x) <==> in_routes(old(ctx).solution.routes@, x),
        forall|e: (usize, i32)| #[trigger] final(ctx).solution.unassigned@.contains(e)
            ==> old(ctx).solution.unassigned@.contains(e) || (e.1 == 0 && old(ctx).solution.required@.contains(e.0)),
{
    let ghost pre = ctx.solution;
    let mut i: usize = 0;
    while i < ctx.solution.required.len()
        invariant
            ctx.problem == old(ctx).problem,
            ctx.solution == (SolutionContext { unassigned: ctx.solution.unassigned, ..pre }),
            i <= pre.required@.len(),
            forall|e: (usize, i32)| #[trigger] ctx.solution.unassigned@.contains(e)
                <==> (pre.unassigned@.contains(e) || (e.1 == 0 && pre.required@.take(i as int).contains(e.0))),
            forall|x: usize| #[trigger] in_unassigned(ctx.solution.unassigned@, x)
                <==> (in_unassigned(pre.unassigned@, x) || pre.required@.take(i as int).contains(x)),
        decreases pre.required@.len() - i,
    {
        let ghost old_un = ctx.solution.unassigned@;
        let j = ctx.solution.required[i];
        ctx.solution.unassigned.push((j, 0));
        proof {
            assert forall|e: (usize, i32)| #[trigger] ctx.solution.unassigned@.contains(e)
                <==> (pre.unassigned@.contains(e) || (e.1 == 0 && pre.required@.take(i + 1).contains(e.0))) by {
                crate::lemmas::lemma_take_push_contains(pre.required@, i as int, e.0);
                lemma_push_contains(old_un, (j, 0i32), e);
            }
            assert forall|x: usize| #[trigger] in_unassigned(ctx.solution.unassigned@, x)
                <==> (in_unassigned(pre.unassigned@, x) || pre.required@.take(i + 1).contains(x)) by {
                crate::lemmas::lemma_take_push_contains(pre.required@, i as int, x);
                lemma_in_unassigned_push(old_un, (j, 0i32), x);
            }
        }
        i = i + 1;
    }
    assert(pre.required@.take(pre.required@.len() as int) =~= pre.required@);
    ctx.solution.required = Vec::new();
    let ghost mid = ctx.solution;
    proof {
        assert(required_drained(pre, mid));
        assert forall|x: usize| #[trigger] mid.occurrences(x) == pre.occurrences(x) by {
            if pre.required@.contains(x) {
                assert(pre.occurrences(x) <= 1);
            }
        }
        assert(mid.disjoint());
        assert(mid.covers(ctx.problem.jobs@.len()));
    }
    ctx.problem.pipeline.accept_solution_state(&mut ctx.solution, &ctx.problem.jobs);
    proof {
        let jobs = ctx.problem.jobs@;
        let post = ctx.solution;
        if has_break(ctx.problem.pipeline.modules@) && ignored_breaks_only(pre, jobs) {
            let p = crate::pipeline::with_routes(mid, post.routes);
            let m = choose|m: SolutionContext| #[trigger] crate::conditional::reclassified(crate::breaks::BreakRequirement {}, p, m, jobs)
                && crate::breaks::breaks_demoted(m, post, jobs);
            if post.required@.len() > 0 {
                let y = post.required@[0];
                assert(post.required@.contains(y));
                assert(m.required@.contains(y));
                assert(p.ignored@.contains(y));
                assert(!jobs[y as int].is_break_spec());
            }
        }
    }
}

} // verus!

verus! {

proof fn lemma_in_routes_update(rs: Seq<RouteContext>, idx: int, nr: RouteContext, j: usize)
    requires
        0 <= idx < rs.len(),
        forall|y: usize| #[trigger] nr.tour.serves(y) <==> (rs[idx].tour.serves(y) || y == j),
    ensures
        forall|y: usize| #[trigger] in_routes(rs.update(idx, nr), y) <==> (in_routes(rs, y) || y == j),
{
    let ns = rs.update(idx, nr);
    assert forall|y: usize| #[trigger] in_routes(ns, y) <==> (in_routes(rs, y) || y == j) by {
        if in_routes(ns, y) {
            let r = choose|r: int| 0 <= r < ns.len() && #[trigger] ns[r].tour.serves(y);
            if r != idx {
                assert(rs[r].tour.serves(y));
            }
        }
        if in_routes(rs, y) {
            let r = choose|r: int| 0 <= r < rs.len() && #[trigger] rs[r].tour.serves(y);
            assert(ns[r].tour.serves(y));
        }
        if y == j {
            assert(ns[idx].tour.serves(y));
        }
    }
}

proof fn lemma_in_routes_push_empty(rs: Seq<RouteContext>, nr: RouteContext)
    requires
        forall|y: usize| !nr.tour.serves(y),
    ensures
        forall|y: usize| #[trigger] in_routes(rs.push(nr), y) <==> in_routes(rs, y),
{
    let ns = rs.push(nr);
    assert forall|y: usize| #[trigger] in_routes(ns, y) <==> in_routes(rs, y) by {
        if in_routes(ns, y) {
            let r = choose|r: int| 0 <= r < ns.len() && #[trigger] ns[r].tour.serves(y);
            assert(rs[r].tour.serves(y));
        }
        if in_routes(rs, y) {
            let r = choose|r: int| 0 <= r < rs.len() && #[trigger] rs[r].tour.serves(y);
            assert(ns[r].tour.serves(y));
        }
    }
}

/// Splices the activities into the tour, the first right after index `index`.
/// `base` with `acts` inserted right after position `index`.
pub open spec fn splice(base: Seq<Activity>, index: int, acts: Seq<Activity>) -> Seq<Activity> {
    base.take(index + 1) + acts + base.skip(index + 1)
}

fn insert_activities(route: &mut RouteContext, index: usize, acts: &Vec<Activity>, j: usize)
    requires
        old(route).tour.wf(),
        index <= old(route).tour.job_count(),
        acts@.len() > 0,
        forall|q: int| 0 <= q < acts@.len() ==> (#[trigger] acts@[q]).job == Some(j),
    ensures
        final(route).tour.wf(),
        final(route).actor == old(route).actor,
        final(route).load == old(route).load,
        final(route).tour.has_end == old(route).tour.has_end,
        forall|y: usize| #[trigger] final(route).tour.serves(y) <==> (old(route).tour.serves(y) || y == j),
        final(route).tour.activities@ == splice(old(route).tour.activities@, index as int, acts@),
{
    let ghost pre = *route;
    let len_before = route.tour.activities.len();
    proof {
        assert(index < len_before);
    }
    let mut pos: usize = index + 1;
    let mut q: usize = 0;
    while q < acts.len()
        invariant
            route.tour.wf(),
            route.actor == pre.actor,
            route.load == pre.load,
            route.tour.has_end == pre.tour.has_end,
            q <= acts@.len(),
            acts@.len() > 0,
            forall|k: int| 0 <= k < acts@.len() ==> (#[trigger] acts@[k]).job == Some(j),
            1 <= pos <= route.tour.job_count() + 1,
            forall|y: usize| #[trigger] route.tour.serves(y) <==> (pre.tour.serves(y) || (q > 0 && y == j)),
            pos == index + 1 + q,
            index < pre.tour.activities@.len(),
            route.tour.activities@ == pre.tour.activities@.take(index + 1) + acts@.take(q as int)
                + pre.tour.activities@.skip(index + 1),
        decreases acts@.len() - q,
    {
        route.tour.insert_at(acts[q], pos);
        let len_now = route.tour.activities.len();
        proof {
            assert(pos < len_now);
            assert(acts@.take(q + 1) =~= acts@.take(q as int).push(acts@[q as int]));
            assert(route.tour.activities@ =~= pre.tour.activities@.take(index + 1) + acts@.take(q + 1)
                + pre.tour.activities@.skip(index + 1));
        }
        pos = pos + 1;
        q = q + 1;
    }
    assert(acts@.take(acts@.len() as int) =~= acts@);
}

/// Whether `mid` is `pre` with job `job` committed: the actor is marked used,
/// its route (a new one, pushed last, when the actor was unused) gets the
/// activities spliced in after `index`, and `job` leaves `required`, the
/// other required jobs keeping their order. Nothing else changes.
pub open spec fn committed(pre: SolutionContext, mid: SolutionContext, job: usize, index: usize, acts: Seq<Activity>, actor: usize) -> bool {
    let was_used = pre.registry.used@[actor as int];
    &&& mid.required@ == without(pre.required@, job, pre.required@.len() as int)
    &&& mid.ignored == pre.ignored
    &&& mid.unassigned == pre.unassigned
    &&& mid.locked == pre.locked
    &&& mid.max_cost == pre.max_cost
    &&& mid.registry.actors@ == pre.registry.actors@
    &&& mid.registry.used@ == pre.registry.used@.update(actor as int, true)
    &&& mid.routes@.len() == pre.routes@.len() + (if was_used { 0int } else { 1int })
    &&& exists|q: int| 0 <= q < mid.routes@.len() && #[trigger] mid.routes@[q].actor == actor && {
        &&& (was_used ==> q < pre.routes@.len()
            && mid.routes@[q].tour.activities@ == splice(pre.routes@[q].tour.activities@, index as int, acts))
        &&& (!was_used ==> q == pre.routes@.len()
            && mid.routes@[q].tour.activities@ == splice(crate::solution::fresh_activities(pre.registry.actors@[actor as int]), index as int, acts))
        &&& forall|r: int| 0 <= r < pre.routes@.len() && r != q ==> #[trigger] mid.routes@[r] == pre.routes@[r]
    }
}

/// Applies one insertion result: commits the route if new, splices the
/// activities in, and moves the job out of `required`; a failure moves its job
/// to `unassigned` with the failure code.
pub fn insert(result: InsertionResult, ctx: &mut InsertionContext)
    requires
        old(ctx).wf(),
        applicable(old(ctx).solution, old(ctx).solution.required@, result.model()),
    ensures
        final(ctx).wf(),
        final(ctx).problem == old(ctx).problem,
        forall|x: usize| #[trigger] in_routes(old(ctx).solution.routes@, x) ==> in_routes(final(ctx).solution.routes@, x),
        ignored_breaks_only(old(ctx).solution, old(ctx).problem.jobs@) ==> ignored_breaks_only(final(ctx).solution, old(ctx).problem.jobs@),
        result.model() matches ResultModel::Success { job, index, activities, actor, .. } ==> {
            &&& in_routes(final(ctx).solution.routes@, job)
            &&& !in_routes(old(ctx).solution.routes@, job)
            &&& job < old(ctx).problem.jobs@.len()
            &&& final(ctx).solution.registry.used@ == old(ctx).solution.registry.used@.update(actor as int, true)
            &&& exists|mid: SolutionContext| #[trigger] committed(old(ctx).solution, mid, job, index, activities, actor)
                && solution_state_accepted(old(ctx).problem.pipeline.modules@, mid, final(ctx).solution, old(ctx).problem.jobs@)
        },
        result.model() matches ResultModel::Failure { job: Some(j), code } ==> {
            &&& final(ctx).solution == (SolutionContext {
                required: final(ctx).solution.required,
                unassigned: final(ctx).solution.unassigned,
                ..old(ctx).solution
            })
            &&& final(ctx).solution.required@ == without(old(ctx).solution.required@, j, old(ctx).solution.required@.len() as int)
            &&& final(ctx).solution.required@.len() < old(ctx).solution.required@.len()
            &&& final(ctx).solution.unassigned@ == old(ctx).solution.unassigned@.push((j, code))
        },
        result.model() matches ResultModel::Failure { job: None, .. } ==> final(ctx).solution == old(ctx).solution,
        forall|e: (usize, i32)| #[trigger] final(ctx).solution.unassigned@.contains(e)
            ==> old(ctx).solution.unassigned@.contains(e) || result.model() == (ResultModel::Failure { code: e.1, job: Some(e.0) }),
{
    let ghost s0 = ctx.solution;
    let ghost jobs = ctx.problem.jobs@;
    match result {
        InsertionResult::Success(success) => {
            let j = success.job;
            let actor = success.actor;
            proof {
                assert(s0.required@.contains(j));
                assert(s0.occurrences(j) == 1);
            }
            let mut idx: usize = 0;
            let mut found = false;
            while idx < ctx.solution.routes.len() && !found
                invariant
                    ctx.solution == s0,
                    idx <= s0.routes@.len(),
                    found ==> idx < s0.routes@.len() && s0.routes@[idx as int].actor == actor,
                    forall|r: int| 0 <= r < idx ==> (#[trigger] s0.routes@[r]).actor != actor,
                decreases s0.routes@.len() - idx + (if found { 0int } else { 1int }),
            {
                if ctx.solution.routes[idx].actor == actor {
                    found = true;
                } else {
                    idx = idx + 1;
                }
            }
            if !found {
                proof {
                    if s0.registry.used@[actor as int] {
                        let q = choose|q: int| 0 <= q < s0.routes@.len() && #[trigger] s0.routes@[q].actor == actor
                            && success.index <= s0.routes@[q].tour.job_count();
                        assert(s0.routes@[q].actor != actor);
                    }
                }
                let tour = Tour::new(&ctx.solution.registry.actors[actor]);
                let ghost before_push = ctx.solution.routes@;
                ctx.solution.routes.push(RouteContext { actor, tour, load: 0 });
                proof {
                    lemma_in_routes_push_empty(before_push, ctx.solution.routes@[before_push.len() as int]);
                }
                idx = ctx.solution.routes.len() - 1;
            } else {
                proof {
                    if !s0.registry.used@[actor as int] {
                        assert(s0.routes@[idx as int].actor < s0.registry.actors@.len());
                        assert(s0.registry.used@[s0.routes@[idx as int].actor as int]);
                    } else {
                        let q = choose|q: int| 0 <= q < s0.routes@.len() && #[trigger] s0.routes@[q].actor == actor
                            && success.index <= s0.routes@[q].tour.job_count();
                        if q != idx {
                            assert(s0.routes@[q].actor != s0.routes@[idx as int].actor);
                        }
                    }
                }
            }
            let _fresh = ctx.solution.registry.use_route(actor);
            let ghost s1 = ctx.solution;
            proof {
                assert forall|r: int| 0 <= r < s1.routes@.len() implies {
                    &&& (#[trigger] s1.routes@[r]).actor < s1.registry.actors@.len()
                    &&& s1.registry.used@[s1.routes@[r].actor as int]
                    &&& s1.routes@[r].tour.wf()
                    &&& s1.routes@[r].tour.has_end
                        == s1.registry.actors@[s1.routes@[r].actor as int].end_location.is_some()
                } by {
                    if r < s0.routes@.len() {
                        assert(s0.routes@[r] == s1.routes@[r]);
                    }
                }
                assert forall|r1: int, r2: int|
                    0 <= r1 < s1.routes@.len() && 0 <= r2 < s1.routes@.len() && r1 != r2
                        implies #[trigger] s1.routes@[r1].actor != #[trigger] s1.routes@[r2].actor by {
                    if r1 < s0.routes@.len() && r2 < s0.routes@.len() {
                        assert(s0.routes@[r1].actor != s0.routes@[r2].actor);
                    } else if r1 < s0.routes@.len() {
                        assert(s0.registry.used@[s0.routes@[r1].actor as int]);
                    } else {
                        assert(s0.registry.used@[s0.routes@[r2].actor as int]);
                    }
                }
                assert forall|a: int| 0 <= a < s1.registry.used@.len() && #[trigger] s1.registry.used@[a]
                    implies exists|r: int| 0 <= r < s1.routes@.len() && #[trigger] s1.routes@[r].actor == a by {
                    if a == actor {
                        assert(s1.routes@[idx as int].actor == a);
                    } else {
                        let r = choose|r: int| 0 <= r < s0.routes@.len() && #[trigger] s0.routes@[r].actor == a;
                        assert(s1.routes@[r].actor == a);
                    }
                }
                assert(s1.routes_match_registry());
            }
            insert_activities(&mut ctx.solution.routes[idx], success.index, &success.activities, j);
            let ghost s2 = ctx.solution;
            proof {
                lemma_in_routes_update(s1.routes@, idx as int, s2.routes@[idx as int], j);
                assert(s2.routes@ == s1.routes@.update(idx as int, s2.routes@[idx as int]));
            }
            remove_job(&mut ctx.solution.required, j);
            let ghost s3 = ctx.solution;
            proof {
                assert forall|x: usize| #[trigger] s3.occurrences(x) == s0.occurrences(x) by {
                    assert(in_routes(s3.routes@, x) <==> (in_routes(s0.routes@, x) || x == j));
                }
                assert(s3.disjoint());
                assert(s3.covers(jobs.len()));
                assert forall|r: int| 0 <= r < s3.routes@.len() implies {
                    &&& (#[trigger] s3.routes@[r]).actor < s3.registry.actors@.len()
                    &&& s3.registry.used@[s3.routes@[r].actor as int]
                    &&& s3.routes@[r].tour.wf()
                    &&& s3.routes@[r].tour.has_end
                        == s3.registry.actors@[s3.routes@[r].actor as int].end_location.is_some()
                } by {
                    assert(s1.routes@[r].actor == s3.routes@[r].actor);
                }
                assert forall|r1: int, r2: int|
                    0 <= r1 < s3.routes@.len() && 0 <= r2 < s3.routes@.len() && r1 != r2
                        implies #[trigger] s3.routes@[r1].actor != #[trigger] s3.routes@[r2].actor by {
                    assert(s1.routes@[r1].actor != s1.routes@[r2].actor);
                }
                assert forall|a: int| 0 <= a < s3.registry.used@.len() && #[trigger] s3.registry.used@[a]
                    implies exists|r: int| 0 <= r < s3.routes@.len() && #[trigger] s3.routes@[r].actor == a by {
                    let r = choose|r: int| 0 <= r < s1.routes@.len() && #[trigger] s1.routes@[r].actor == a;
                    assert(s3.routes@[r].actor == a);
                }
            }
            proof {
                let was_used = s0.registry.used@[actor as int];
                assert(found == was_used);
                let q = idx as int;
                assert(s3.routes@[q].actor == actor);
                assert forall|r: int| 0 <= r < s0.routes@.len() && r != q implies #[trigger] s3.routes@[r] == s0.routes@[r] by {
                    assert(s3.routes@[r] == s1.routes@[r]);
                }
                assert(committed(s0, s3, j, success.index, success.activities@, actor));
            }
            ctx.problem.pipeline.accept_insertion(&mut ctx.solution, idx, &ctx.problem.jobs);
        },
        InsertionResult::Failure(failure) => {
            match failure.job {
                Some(j) => {
                    proof {
                        assert(s0.required@.contains(j));
                        assert(s0.occurrences(j) == 1);
                    }
                    let ghost u0 = ctx.solution.unassigned@;
                    ctx.solution.unassigned.push((j, failure.constraint));
                    remove_job(&mut ctx.solution.required, j);
                    proof {
                        let s = ctx.solution;
                        assert forall|x: usize| #[trigger] s.occurrences(x) == s0.occurrences(x) by {
                            lemma_in_unassigned_push(u0, (j, failure.constraint), x);
                        }
                        assert(s.disjoint());
                        assert(s.covers(jobs.len()));
                    }
                },
                None => {},
            }
        },
    }
}

} // verus!

verus! {

/// Runs the insertion heuristic with a job selector and a reducer.
#[derive(Clone, Copy, Debug, PartialEq, Eq, Structural)]
pub struct InsertionHeuristic {
    pub insertion_position: InsertionPosition,
}

impl Default for InsertionHeuristic {
    fn default() -> (r: Self)
        ensures
            r.insertion_position == InsertionPosition::Any,
    {
        InsertionHeuristic::new(InsertionPosition::Any)
    }
}

fn quota_reached<Q: Quota>(quota: Option<&Q>) -> (r: bool)
    ensures
        quota.is_none() ==> !r,
{
    match quota {
        Some(q) => q.is_reached(),
        None => false,
    }
}

impl InsertionHeuristic {
    pub fn new(insertion_position: InsertionPosition) -> (r: InsertionHeuristic)
        ensures
            r.insertion_position == insertion_position,
    {
        InsertionHeuristic { insertion_position }
    }

    /// Prepares the context, inserts jobs until none is required, the quota
    /// is reached, or a step yields no job, then finalizes the context.
    pub fn process<S: JobSelector, R: JobMapReducer, Q: Quota>(
        &self,
        job_selector: &S,
        job_reducer: &R,
        ctx: InsertionContext,
        quota: Option<&Q>,
    ) -> (r: InsertionContext)
        requires
            ctx.wf(),
        ensures
            r.wf(),
            r.problem == ctx.problem,
            forall|x: usize| #[trigger] in_routes(ctx.solution.routes@, x) ==> in_routes(r.solution.routes@, x),
            (!has_break(ctx.problem.pipeline.modules@) || ignored_breaks_only(ctx.solution, ctx.problem.jobs@))
                ==> r.solution.required@.len() == 0,
            forall|e: (usize, i32)| #[trigger] r.solution.unassigned@.contains(e)
                ==> reported_failure(*job_reducer, self.insertion_position, e) || e.1 == 0,
            quota.is_none() && job_selector.never_empty() ==> forall|e: (usize, i32)|
                #[trigger] r.solution.unassigned@.contains(e) ==> reported_failure(*job_reducer, self.insertion_position, e),
    {
        let mut ctx = ctx;
        let ghost problem = ctx.problem;
        let ghost start = ctx.solution;
        let ghost ibo = ignored_breaks_only(start, problem.jobs@);
        prepare_ctx(&mut ctx);
        let n_jobs = ctx.problem.jobs.len();
        let mut stop = false;
        while !stop && !ctx.solution.required.is_empty() && !quota_reached(quota)
            invariant
                stop ==> !(quota.is_none() && job_selector.never_empty()),
                forall|e: (usize, i32)| #[trigger] ctx.solution.unassigned@.contains(e)
                    ==> reported_failure(*job_reducer, self.insertion_position, e),
                ctx.wf(),
                ctx.problem == problem,
                n_jobs == problem.jobs@.len(),
                forall|x: usize| #[trigger] in_routes(start.routes@, x) ==> in_routes(ctx.solution.routes@, x),
                ibo ==> ignored_breaks_only(ctx.solution, problem.jobs@),
            decreases (if stop { 0int } else { 1int }), unrouted_count(ctx.solution.routes@, n_jobs as int), ctx.solution.required@.len(),
        {
            let ghost before = ctx.solution;
            let jobs = job_selector.select(&mut ctx);
            proof {
                broadcast use vstd::seq_lib::group_to_multiset_ensures;
                assert forall|k: int| 0 <= k < jobs@.len() implies #[trigger] jobs@[k] < ctx.problem.jobs@.len() by {
                    assert(ctx.solution.required@.contains(jobs@[k]));
                    assert(ctx.solution.occurrences(jobs@[k]) >= 1);
                }
                assert(ctx.solution.required@.to_multiset().len() == before.required@.to_multiset().len());
                assert(ctx.solution.required@.len() == before.required@.len());
                assert(ctx.solution.routes == before.routes);
            }
            let result = job_reducer.reduce(&ctx, &jobs, self.insertion_position);
            let no_job = match &result {
                InsertionResult::Failure(f) => f.job.is_none(),
                InsertionResult::Success(_) => false,
            };
            if no_job {
                proof {
                    assert(jobs@.len() == 0);
                    assert(before.required@.len() > 0);
                }
                stop = true;
                continue;
            }
            let ghost mid = ctx.solution;
            let ghost batch = jobs@;
            let ghost at_reduce = ctx;
            proof {
                if let Some(x) = result_job(result.model()) {
                    assert(jobs@.contains(x));
                    let k = choose|k: int| 0 <= k < jobs@.len() && jobs@[k] == x;
                    assert(mid.required@.contains(jobs@[k]));
                }
            }
            insert(result, &mut ctx);
            proof {
                assert forall|e: (usize, i32)| #[trigger] ctx.solution.unassigned@.contains(e)
                    implies reported_failure(*job_reducer, self.insertion_position, e) by {
                    if !mid.unassigned@.contains(e) {
                        assert(job_reducer.reduces_to(at_reduce, batch, self.insertion_position,
                            ResultModel::Failure { code: e.1, job: Some(e.0) }));
                    }
                }
                lemma_unrouted_count(mid.routes@, ctx.solution.routes@, n_jobs as int, 0);
                match result.model() {
                    ResultModel::Success { job, .. } => {
                        lemma_unrouted_count(mid.routes@, ctx.solution.routes@, n_jobs as int, job);
                    },
                    _ => {},
                }
            }
        }
        let ghost looped = ctx.solution;
        finalize_ctx(&mut ctx);
        proof {
            assert forall|e: (usize, i32)| #[trigger] ctx.solution.unassigned@.contains(e)
                implies reported_failure(*job_reducer, self.insertion_position, e) || e.1 == 0 by {
                if !looped.unassigned@.contains(e) {
                    assert(e.1 == 0);
                }
            }
            if quota.is_none() && job_selector.never_empty() {
                assert(looped.required@.len() == 0);
                assert forall|e: (usize, i32)| #[trigger] ctx.solution.unassigned@.contains(e)
                    implies reported_failure(*job_reducer, self.insertion_position, e) by {
                    if looped.required@.contains(e.0) {
                        let k = choose|k: int| 0 <= k < looped.required@.len() && looped.required@[k] == e.0;
                    }
                    assert(looped.unassigned@.contains(e));
                }
            }
        }
        ctx
    }
}

} // verus!
