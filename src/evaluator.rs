//! The insertion evaluator: feasibility and delta cost of placing one job in
//! one route, over every allowed position and every place alternative.
use vstd::prelude::*;
use crate::models::{Activity, Job, JobKind, Place, MAX_PLACES};
use crate::solution::{RouteContext, RouteView};
use crate::problem::{InsertionContext, Problem};
use crate::constraints::ActivityContext;
use crate::pipeline::{hard_activity_from, hard_route_from, soft_route_prefix, MAX_MODULES, MAX_SOFT_COST};
use crate::insertions::{InsertionResult, ResultModel};

verus! {

/// Bound on the magnitude of the delta cost of any insertion.
pub const MAX_INSERTION_COST: i128 = 0x4000_0000_0000_0000_0000_0000_0000;

/// Which positions of a tour are tried.
#[derive(Clone, Copy, Debug, PartialEq, Eq, Structural)]
pub enum InsertionPosition {
    /// Every position.
    Any,
    /// Only the given position.
    Concrete(usize),
    /// Only the position right before the end.
    Last,
}

/// Number of alternatives: one per place of a single job, one for a multi job.
pub open spec fn block_count(job: Job) -> int {
    if job.kind == JobKind::Single { job.places@.len() as int } else { 1 }
}

/// Number of activities an alternative inserts.
pub open spec fn block_len(job: Job) -> int {
    if job.kind == JobKind::Single { 1 } else { job.places@.len() as int }
}

/// The place of activity `q` of alternative `b`.
pub open spec fn block_place(job: Job, b: int, q: int) -> Place {
    if job.kind == JobKind::Single { job.places@[b] } else { job.places@[q] }
}

pub open spec fn position_count(policy: InsertionPosition, m: int) -> int {
    match policy {
        InsertionPosition::Any => m + 1,
        InsertionPosition::Concrete(c) => if c <= m { 1 } else { 0 },
        InsertionPosition::Last => 1,
    }
}

/// The insertion index of the `k`-th tried position: the new activities go
/// right after the activity at this index.
pub open spec fn position_at(policy: InsertionPosition, m: int, k: int) -> int {
    match policy {
        InsertionPosition::Any => k,
        InsertionPosition::Concrete(c) => c as int,
        InsertionPosition::Last => m,
    }
}

/// The jobs around index `i` of the tour when job `j` is placed there.
pub open spec fn activity_context(j: usize, acts: Seq<Activity>, i: int) -> ActivityContext {
    ActivityContext {
        prev: acts[i].job,
        target: Some(j),
        next: if i + 1 < acts.len() { acts[i + 1].job } else { None },
    }
}

/// Distance along the first `q` activities of an alternative.
pub open spec fn inner_path(p: Problem, job: Job, b: int, q: int) -> int
    decreases q,
{
    if q <= 1 {
        0
    } else {
        inner_path(p, job, b, q - 1) + p.dist(block_place(job, b, q - 2).location, block_place(job, b, q - 1).location)
    }
}

/// Service time of the first `q` activities of an alternative.
pub open spec fn block_service(job: Job, b: int, q: int) -> int
    decreases q,
{
    if q <= 0 {
        0
    } else {
        block_service(job, b, q - 1) + block_place(job, b, q - 1).duration
    }
}

/// Change of travelled distance when alternative `b` is placed after index `i`.
pub open spec fn path_delta(p: Problem, job: Job, b: int, acts: Seq<Activity>, i: int) -> int {
    let prev = acts[i].location;
    let first = block_place(job, b, 0).location;
    let last = block_place(job, b, block_len(job) - 1).location;
    p.dist(prev, first) + inner_path(p, job, b, block_len(job)) + if i + 1 < acts.len() {
        let nx = acts[i + 1].location;
        p.dist(last, nx) - p.dist(prev, nx)
    } else {
        0
    }
}

/// Delta cost of placing alternative `b` of job `j` after index `i` of the route.
pub open spec fn insertion_cost(ctx: InsertionContext, j: usize, route: RouteView, b: int, i: int) -> int {
    let actor = ctx.solution.registry.actors@[route.actor as int];
    let job = ctx.problem.jobs@[j as int];
    let ms = ctx.problem.pipeline.modules@;
    soft_route_prefix(ms, ms.len() as int, job, ctx.solution.max_cost)
        + actor.costs.per_distance * path_delta(ctx.problem, job, b, route.acts, i)
        + actor.costs.per_service_time * block_service(job, b, block_len(job))
        + if ctx.solution.registry.used@[route.actor as int] { 0 } else { actor.costs.fixed as int }
}

/// Progress of the search over the positions of one route: the best candidate
/// so far as (cost, alternative, index), the first violation code seen, and
/// whether a violation pruned the rest of the route.
pub struct EvalState {
    pub best: Option<(int, int, int)>,
    pub code: Option<i32>,
    pub stopped: bool,
}

pub open spec fn eval_step(ctx: InsertionContext, j: usize, route: RouteView, policy: InsertionPosition, acc: EvalState, b: int, k: int) -> EvalState {
    let i = position_at(policy, route.job_count(), k);
    match hard_activity_from(ctx.problem.pipeline.modules@, 0, ctx.problem.jobs@, activity_context(j, route.acts, i)) {
        Some(v) => EvalState {
            best: acc.best,
            code: if acc.code is Some { acc.code } else { Some(v.code) },
            stopped: v.stopped,
        },
        None => {
            let c = insertion_cost(ctx, j, route, b, i);
            match acc.best {
                Some(bb) => if c < bb.0 {
                    EvalState { best: Some((c, b, i)), code: acc.code, stopped: acc.stopped }
                } else {
                    acc
                },
                None => EvalState { best: Some((c, b, i)), code: acc.code, stopped: acc.stopped },
            }
        },
    }
}

pub open spec fn eval_positions(ctx: InsertionContext, j: usize, route: RouteView, policy: InsertionPosition, acc: EvalState, b: int, k: int) -> EvalState
    decreases position_count(policy, route.job_count()) - k,
{
    if k < 0 || k >= position_count(policy, route.job_count()) || acc.stopped {
        acc
    } else {
        eval_positions(ctx, j, route, policy, eval_step(ctx, j, route, policy, acc, b, k), b, k + 1)
    }
}

pub open spec fn eval_blocks(ctx: InsertionContext, j: usize, route: RouteView, policy: InsertionPosition, acc: EvalState, b: int) -> EvalState
    decreases block_count(ctx.problem.jobs@[j as int]) - b,
{
    if b < 0 || b >= block_count(ctx.problem.jobs@[j as int]) || acc.stopped {
        acc
    } else {
        eval_blocks(ctx, j, route, policy, eval_positions(ctx, j, route, policy, acc, b, 0), b + 1)
    }
}

/// The activities of alternative `b` of job `j`, in visiting order.
pub open spec fn block_activities(j: usize, job: Job, b: int) -> Seq<Activity> {
    Seq::new(block_len(job) as nat, |q: int| Activity {
        job: Some(j),
        location: block_place(job, b, q).location,
        duration: block_place(job, b, q).duration as u64,
        demand: if q == 0 { job.demand } else { 0 },
    })
}

/// What evaluating job `j` in `route` gives: the first hard route violation;
/// else the cheapest feasible candidate, the earliest among equals; else a
/// failure with the first violation code seen (-1 when none was).
pub open spec fn route_result(ctx: InsertionContext, j: usize, route: RouteView, policy: InsertionPosition) -> ResultModel {
    let actor = ctx.solution.registry.actors@[route.actor as int];
    let job = ctx.problem.jobs@[j as int];
    match hard_route_from(ctx.problem.pipeline.modules@, 0, actor, route.load, job) {
        Some(c) => ResultModel::Failure { code: c, job: Some(j) },
        None => {
            let st = eval_blocks(ctx, j, route, policy, EvalState { best: None, code: None, stopped: false }, 0);
            match st.best {
                Some(bb) => ResultModel::Success {
                    cost: bb.0,
                    job: j,
                    index: bb.2 as usize,
                    activities: block_activities(j, job, bb.1),
                    actor: route.actor,
                },
                None => ResultModel::Failure {
                    code: match st.code { Some(c) => c, None => -1i32 },
                    job: Some(j),
                },
            }
        },
    }
}

pub open spec fn mk_state(has_best: bool, cost: i128, b: usize, i: usize, code: Option<i32>, stopped: bool) -> EvalState {
    EvalState {
        best: if has_best { Some((cost as int, b as int, i as int)) } else { None },
        code,
        stopped,
    }
}

fn place_of(job: &Job, b: usize, q: usize) -> (p: &Place)
    requires
        job.wf(),
        0 <= b < block_count(*job),
        0 <= q < block_len(*job),
    ensures
        *p == block_place(*job, b as int, q as int),
{
    if job.kind == JobKind::Single {
        &job.places[b]
    } else {
        &job.places[q]
    }
}

/// Inner distance and service time of alternative `b`.
fn block_sums(p: &Problem, job: &Job, b: usize) -> (r: (u128, u128))
    requires
        p.wf(),
        job.wf(),
        0 <= b < block_count(*job),
    ensures
        r.0 == inner_path(*p, *job, b as int, block_len(*job)),
        r.1 == block_service(*job, b as int, block_len(*job)),
        r.0 <= 0x1_0000_0000_0000_0000,
        r.1 <= 0x1_0000_0000_0000_0000,
{
    let len: usize = if job.kind == JobKind::Single { 1 } else { job.places.len() };
    let mut inner: u128 = 0;
    let mut service: u128 = 0;
    let mut q: usize = 0;
    while q < len
        invariant
            p.wf(),
            job.wf(),
            0 <= b < block_count(*job),
            len == block_len(*job),
            len <= MAX_PLACES,
            q <= len,
            inner == inner_path(*p, *job, b as int, q as int),
            service == block_service(*job, b as int, q as int),
            inner <= q * 0xffff_ffff,
            service <= q * 0xffff_ffff,
        decreases len - q,
    {
        let pl = place_of(job, b, q);
        service = service + pl.duration as u128;
        if q >= 1 {
            let prev = place_of(job, b, q - 1);
            inner = inner + p.distance(prev.location, pl.location) as u128;
        }
        q = q + 1;
    }
    (inner, service)
}

fn position_count_exec(policy: InsertionPosition, m: usize) -> (r: usize)
    requires
        m < usize::MAX,
    ensures
        r == position_count(policy, m as int),
{
    match policy {
        InsertionPosition::Any => m + 1,
        InsertionPosition::Concrete(c) => if c <= m { 1 } else { 0 },
        InsertionPosition::Last => 1,
    }
}

fn position_at_exec(policy: InsertionPosition, m: usize, k: usize) -> (r: usize)
    requires
        k < position_count(policy, m as int),
    ensures
        r == position_at(policy, m as int, k as int),
        r <= m,
{
    match policy {
        InsertionPosition::Any => k,
        InsertionPosition::Concrete(c) => c,
        InsertionPosition::Last => m,
    }
}

/// Evaluates job `j` in `route` through the pipeline.
pub fn evaluate_job_insertion_in_route(
    ctx: &InsertionContext,
    j: usize,
    route: &RouteContext,
    policy: InsertionPosition,
) -> (r: InsertionResult)
    requires
        ctx.wf(),
        j < ctx.problem.jobs@.len(),
        route.tour.wf(),
        route.actor < ctx.solution.registry.actors@.len(),
        route.jobs_within(ctx.problem.jobs@.len()),
    ensures
        r.model() == route_result(*ctx, j, route.snapshot(), policy),
        r.model() is Success ==> -MAX_INSERTION_COST <= r.model()->Success_cost <= MAX_INSERTION_COST,
{
    let actor = &ctx.solution.registry.actors[route.actor];
    let job = &ctx.problem.jobs[j];
    let pipeline = &ctx.problem.pipeline;
    match pipeline.hard_route(actor, route, job) {
        Some(c) => {
            return InsertionResult::make_failure_with_code(c, Some(j));
        },
        None => {},
    }
    let soft = pipeline.soft_route(job, ctx.solution.max_cost);
    let fixed: i128 = if ctx.solution.registry.used[route.actor] { 0 } else { actor.costs.fixed as i128 };
    let per_distance = actor.costs.per_distance as i128;
    let per_service = actor.costs.per_service_time as i128;
    let m = route.tour.job_activity_count();
    let n_acts = route.tour.activities.len();
    let count = position_count_exec(policy, m);
    let nb: usize = if job.kind == JobKind::Single { job.places.len() } else { 1 };
    let blen: usize = if job.kind == JobKind::Single { 1 } else { job.places.len() };
    let ghost init = EvalState { best: None, code: None, stopped: false };
    let mut has_best = false;
    let mut best_cost: i128 = 0;
    let mut best_b: usize = 0;
    let mut best_i: usize = 0;
    let mut code: Option<i32> = None;
    let mut stopped = false;
    let mut b: usize = 0;
    proof {
        assert(ctx.problem.jobs@[j as int].wf());
    }
    while b < nb && !stopped
        invariant
            ctx.wf(),
            j < ctx.problem.jobs@.len(),
            *job == ctx.problem.jobs@[j as int],
            *actor == ctx.solution.registry.actors@[route.actor as int],
            *pipeline == ctx.problem.pipeline,
            job.wf(),
            route.tour.wf(),
            route.actor < ctx.solution.registry.actors@.len(),
            route.jobs_within(ctx.problem.jobs@.len()),
            nb == block_count(*job),
            blen == block_len(*job),
            m == route.tour.job_count(),
            n_acts == route.tour.activities@.len(),
            count == position_count(policy, m as int),
            soft == soft_route_prefix(pipeline.modules@, pipeline.modules@.len() as int, *job, ctx.solution.max_cost),
            -(MAX_MODULES as int) * MAX_SOFT_COST <= soft <= (MAX_MODULES as int) * MAX_SOFT_COST,
            fixed == (if ctx.solution.registry.used@[route.actor as int] { 0 } else { actor.costs.fixed as int }),
            per_distance == actor.costs.per_distance,
            per_service == actor.costs.per_service_time,
            b <= nb,
            has_best ==> best_b < nb && best_i <= m,
            has_best ==> -MAX_INSERTION_COST <= best_cost <= MAX_INSERTION_COST,
            eval_blocks(*ctx, j, route.snapshot(), policy, init, 0)
                == eval_blocks(*ctx, j, route.snapshot(), policy, mk_state(has_best, best_cost, best_b, best_i, code, stopped), b as int),
        decreases nb - b,
    {
        let (inner, service) = block_sums(&ctx.problem, job, b);
        let first = place_of(job, b, 0).location;
        let last = place_of(job, b, blen - 1).location;
        let ghost at_block = mk_state(has_best, best_cost, best_b, best_i, code, stopped);
        let mut k: usize = 0;
        while k < count && !stopped
            invariant
                ctx.wf(),
                j < ctx.problem.jobs@.len(),
                *job == ctx.problem.jobs@[j as int],
                *actor == ctx.solution.registry.actors@[route.actor as int],
                *pipeline == ctx.problem.pipeline,
                job.wf(),
                route.tour.wf(),
                route.actor < ctx.solution.registry.actors@.len(),
                route.jobs_within(ctx.problem.jobs@.len()),
                b < nb,
                nb == block_count(*job),
                blen == block_len(*job),
                m == route.tour.job_count(),
                n_acts == route.tour.activities@.len(),
                count == position_count(policy, m as int),
                soft == soft_route_prefix(pipeline.modules@, pipeline.modules@.len() as int, *job, ctx.solution.max_cost),
                -(MAX_MODULES as int) * MAX_SOFT_COST <= soft <= (MAX_MODULES as int) * MAX_SOFT_COST,
                fixed == (if ctx.solution.registry.used@[route.actor as int] { 0 } else { actor.costs.fixed as int }),
                per_distance == actor.costs.per_distance,
                per_service == actor.costs.per_service_time,
                inner == inner_path(ctx.problem, *job, b as int, blen as int),
                service == block_service(*job, b as int, blen as int),
                inner <= 0x1_0000_0000_0000_0000,
                service <= 0x1_0000_0000_0000_0000,
                first == block_place(*job, b as int, 0).location,
                last == block_place(*job, b as int, blen - 1).location,
                k <= count,
                has_best ==> best_b < nb && best_i <= m,
                has_best ==> -MAX_INSERTION_COST <= best_cost <= MAX_INSERTION_COST,
                eval_positions(*ctx, j, route.snapshot(), policy, at_block, b as int, 0)
                    == eval_positions(*ctx, j, route.snapshot(), policy, mk_state(has_best, best_cost, best_b, best_i, code, stopped), b as int, k as int),
            decreases count - k,
        {
            let i = position_at_exec(policy, m, k);
            let prev_act = route.tour.activities[i];
            let next_job: Option<usize> = if i + 1 < n_acts { route.tour.activities[i + 1].job } else { None };
            let a = ActivityContext { prev: prev_act.job, target: Some(j), next: next_job };
            proof {
                assert(a == activity_context(j, route.tour.activities@, i as int));
                assert(route.tour.activities@[i as int].job matches Some(x) ==> x < ctx.problem.jobs@.len());
                if i + 1 < n_acts {
                    assert(route.tour.activities@[i + 1].job matches Some(x) ==> x < ctx.problem.jobs@.len());
                }
            }
            let ghost before = mk_state(has_best, best_cost, best_b, best_i, code, stopped);
            match pipeline.hard_activity(&ctx.problem.jobs, &a) {
                Some(v) => {
                    if code.is_none() {
                        code = Some(v.code);
                    }
                    stopped = v.stopped;
                },
                None => {
                    let d_first = ctx.problem.distance(prev_act.location, first) as i128;
                    let tail: i128 = if i + 1 < n_acts {
                        let nx = route.tour.activities[i + 1].location;
                        ctx.problem.distance(last, nx) as i128 - ctx.problem.distance(prev_act.location, nx) as i128
                    } else {
                        0
                    };
                    let path: i128 = d_first + inner as i128 + tail;
                    assert(path == path_delta(ctx.problem, *job, b as int, route.tour.activities@, i as int));
                    assert(-0x1_0000_0000 <= path <= 0x3_0000_0000_0000_0000);
                    assert(-0x1_0000_0000_0000_0000 <= per_distance * path <= 0x3_0000_0000_0000_0000_0000_0000)
                        by (nonlinear_arith)
                        requires
                            0 <= per_distance <= 0xffff_ffff,
                            -0x1_0000_0000 <= path <= 0x3_0000_0000_0000_0000,
                    ;
                    assert(0 <= per_service * (service as i128) <= 0x1_0000_0000_0000_0000_0000_0000)
                        by (nonlinear_arith)
                        requires
                            0 <= per_service <= 0xffff_ffff,
                            0 <= service <= 0x1_0000_0000_0000_0000,
                    ;
                    let c: i128 = soft + per_distance * path + per_service * (service as i128) + fixed;
                    assert(c == insertion_cost(*ctx, j, route.snapshot(), b as int, i as int));
                    if !has_best || c < best_cost {
                        has_best = true;
                        best_cost = c;
                        best_b = b;
                        best_i = i;
                    }
                },
            }
            proof {
                assert(mk_state(has_best, best_cost, best_b, best_i, code, stopped)
                    == eval_step(*ctx, j, route.snapshot(), policy, before, b as int, k as int));
            }
            k = k + 1;
        }
        b = b + 1;
    }
    if has_best {
        let mut acts: Vec<Activity> = Vec::new();
        let mut q: usize = 0;
        while q < blen
            invariant
                job.wf(),
                blen == block_len(*job),
                best_b < nb,
                nb == block_count(*job),
                q <= blen,
                acts@ == block_activities(j, *job, best_b as int).take(q as int),
            decreases blen - q,
        {
            let pl = place_of(job, best_b, q);
            let demand: u64 = if q == 0 { job.demand } else { 0 };
            acts.push(Activity { job: Some(j), location: pl.location, duration: pl.duration as u64, demand });
            proof {
                assert(acts@ =~= block_activities(j, *job, best_b as int).take(q + 1));
            }
            q = q + 1;
        }
        proof {
            assert(acts@ =~= block_activities(j, *job, best_b as int));
        }
        InsertionResult::make_success(best_cost, j, best_i, acts, route.actor)
    } else {
        let c: i32 = match code {
            Some(c) => c,
            None => -1,
        };
        InsertionResult::make_failure_with_code(c, Some(j))
    }
}

} // verus!
