//! Insertion results, selectors, reducers and the insertion heuristic driver.
use vstd::prelude::*;
use crate::models::{Activity, Tour};
use crate::solution::{RouteContext, RouteView, SolutionContext, fresh_view, in_routes};
use crate::problem::InsertionContext;
use crate::evaluator::{InsertionPosition, EvalState, route_result, eval_blocks, eval_positions, eval_step,
    block_count, position_count, evaluate_job_insertion_in_route};
use crate::registry::lemma_unused_prefix;

verus! {

/// The mathematical content of an insertion result.
#[allow(inconsistent_fields)]
pub enum ResultModel {
    Success { cost: int, job: usize, index: usize, activities: Seq<Activity>, actor: usize },
    Failure { code: i32, job: Option<usize> },
}

/// A successful evaluation: what to insert, where, and at which cost.
#[derive(Debug)]
pub struct InsertionSuccess {
    /// Delta cost of the insertion.
    pub cost: i128,
    /// The job to insert.
    pub job: usize,
    /// The activities go right after the tour activity at this index, in order.
    pub index: usize,
    /// The activities to insert, in visiting order.
    pub activities: Vec<Activity>,
    /// The actor whose route receives the job.
    pub actor: usize,
}

/// A failed evaluation.
#[derive(Debug)]
pub struct InsertionFailure {
    /// Code of the violated constraint.
    pub constraint: i32,
    /// The job that could not be inserted, if any.
    pub job: Option<usize>,
}

/// The outcome of evaluating one or more jobs.
#[derive(Debug)]
pub enum InsertionResult {
    Success(InsertionSuccess),
    Failure(InsertionFailure),
}

/// The better of two results: the cheaper success (the left one on equal
/// cost), a success over a failure, the right one of two failures.
pub open spec fn best_result(left: ResultModel, right: ResultModel) -> ResultModel {
    match (left, right) {
        (ResultModel::Success { .. }, ResultModel::Failure { .. }) => left,
        (ResultModel::Failure { .. }, ResultModel::Success { .. }) => right,
        (ResultModel::Success { cost: lc, .. }, ResultModel::Success { cost: rc, .. }) => if lc > rc { right } else { left },
        _ => right,
    }
}

impl InsertionResult {
    pub open spec fn model(&self) -> ResultModel {
        match self {
            InsertionResult::Success(s) => ResultModel::Success {
                cost: s.cost as int,
                job: s.job,
                index: s.index,
                activities: s.activities@,
                actor: s.actor,
            },
            InsertionResult::Failure(f) => ResultModel::Failure { code: f.constraint, job: f.job },
        }
    }

    /// A success.
    pub fn make_success(cost: i128, job: usize, index: usize, activities: Vec<Activity>, actor: usize) -> (r: Self)
        ensures
            r.model() == (ResultModel::Success { cost: cost as int, job, index, activities: activities@, actor }),
    {
        InsertionResult::Success(InsertionSuccess { cost, job, index, activities, actor })
    }

    /// A failure with code -1 and no job.
    pub fn make_failure() -> (r: Self)
        ensures
            r.model() == (ResultModel::Failure { code: -1i32, job: None }),
    {
        Self::make_failure_with_code(-1, None)
    }

    /// A failure with the given code.
    pub fn make_failure_with_code(code: i32, job: Option<usize>) -> (r: Self)
        ensures
            r.model() == (ResultModel::Failure { code, job }),
    {
        InsertionResult::Failure(InsertionFailure { constraint: code, job })
    }

    /// The cheaper of two results.
    pub fn choose_best_result(left: Self, right: Self) -> (r: Self)
        ensures
            r.model() == best_result(left.model(), right.model()),
    {
        let pick_left = match (&left, &right) {
            (InsertionResult::Success(_), InsertionResult::Failure(_)) => true,
            (InsertionResult::Failure(_), InsertionResult::Success(_)) => false,
            (InsertionResult::Success(l), InsertionResult::Success(r)) => !(l.cost > r.cost),
            _ => false,
        };
        if pick_left {
            left
        } else {
            right
        }
    }
}

} // verus!

verus! {

/// The routes offered for one job: every live route, then one unused route
/// for each unused actor.
pub open spec fn candidate_views(s: SolutionContext) -> Seq<RouteView> {
    s.routes@.map_values(|r: RouteContext| r.snapshot())
        + s.registry.unused().map_values(|a: usize| fresh_view(a, s.registry.actors@[a as int]))
}

/// Folds per-route results: the cheaper success wins (the earlier one on
/// equal cost); between failures the earlier one stays.
pub open spec fn combine_route_results(acc: ResultModel, r: ResultModel) -> ResultModel {
    match (acc, r) {
        (ResultModel::Success { cost: a, .. }, ResultModel::Success { cost: b, .. }) => if b < a { r } else { acc },
        (ResultModel::Success { .. }, ResultModel::Failure { .. }) => acc,
        (ResultModel::Failure { .. }, ResultModel::Success { .. }) => r,
        (ResultModel::Failure { .. }, ResultModel::Failure { .. }) => acc,
    }
}

/// The fold of the first `n` route results of job `j`.
pub open spec fn fold_route_results(rs: Seq<ResultModel>, n: int, j: usize) -> ResultModel
    decreases n,
{
    if n <= 0 {
        ResultModel::Failure { code: -1i32, job: Some(j) }
    } else if n == 1 {
        rs[0]
    } else {
        combine_route_results(fold_route_results(rs, n - 1, j), rs[n - 1])
    }
}

/// The results of job `j` in every candidate route.
pub open spec fn route_results(ctx: InsertionContext, j: usize, policy: InsertionPosition) -> Seq<ResultModel> {
    candidate_views(ctx.solution).map_values(|v: RouteView| route_result(ctx, j, v, policy))
}

/// The best insertion of job `j` over all candidate routes.
pub open spec fn job_result(ctx: InsertionContext, j: usize, policy: InsertionPosition) -> ResultModel {
    fold_route_results(route_results(ctx, j, policy), candidate_views(ctx.solution).len() as int, j)
}

/// Offers every live route plus one unused route per unused actor.
#[derive(Clone, Copy, Debug, PartialEq, Eq, Structural)]
pub struct AllRouteSelector {}

impl Default for AllRouteSelector {
    fn default() -> (r: Self)
        ensures
            r == (AllRouteSelector {}),
    {
        AllRouteSelector {}
    }
}

impl AllRouteSelector {
    pub fn new() -> (r: AllRouteSelector)
        ensures
            r == (AllRouteSelector {}),
    {
        AllRouteSelector {}
    }

    pub fn select(&self, ctx: &InsertionContext) -> (routes: Vec<RouteContext>)
        requires
            ctx.wf(),
        ensures
            routes@.map_values(|r: RouteContext| r.snapshot()) == candidate_views(ctx.solution),
            forall|k: int| 0 <= k < routes@.len() ==> {
                &&& (#[trigger] routes@[k]).tour.wf()
                &&& routes@[k].actor < ctx.solution.registry.actors@.len()
                &&& routes@[k].jobs_within(ctx.problem.jobs@.len())
            },
    {
        let s = &ctx.solution;
        let mut routes: Vec<RouteContext> = Vec::new();
        let mut r: usize = 0;
        while r < s.routes.len()
            invariant
                ctx.wf(),
                *s == ctx.solution,
                r <= s.routes@.len(),
                routes@.len() == r,
                forall|k: int| 0 <= k < r ==> (#[trigger] routes@[k]).snapshot() == s.routes@[k].snapshot(),
                forall|k: int| 0 <= k < routes@.len() ==> {
                    &&& (#[trigger] routes@[k]).tour.wf()
                    &&& routes@[k].actor < s.registry.actors@.len()
                    &&& routes@[k].jobs_within(ctx.problem.jobs@.len())
                },
            decreases s.routes@.len() - r,
        {
            let c = s.routes[r].duplicate();
            proof {
                assert(s.routes@[r as int].tour.wf());
                assert(s.routes@[r as int].actor < s.registry.actors@.len());
                assert(c.tour.activities@ == s.routes@[r as int].tour.activities@);
                Tour::lemma_wf_same(s.routes@[r as int].tour, c.tour);
                assert forall|p: int| 0 <= p < c.tour.activities@.len()
                    implies ((#[trigger] c.tour.activities@[p]).job matches Some(x) ==> x < ctx.problem.jobs@.len()) by {
                    if let Some(x) = c.tour.activities@[p].job {
                        assert(s.routes@[r as int].tour.serves(x));
                        assert(in_routes(s.routes@, x));
                        assert(s.occurrences(x) >= 1);
                    }
                }
            }
            assert(c.tour.wf());
            assert(c.actor < s.registry.actors@.len());
            assert(c.jobs_within(ctx.problem.jobs@.len()));
            routes.push(c);
            r = r + 1;
        }
        let fresh = s.registry.next();
        let ghost base = routes@;
        let mut q: usize = 0;
        while q < fresh.len()
            invariant
                ctx.wf(),
                *s == ctx.solution,
                q <= fresh@.len(),
                fresh@.len() == s.registry.unused().len(),
                forall|k: int| 0 <= k < fresh@.len() ==> {
                    &&& (#[trigger] fresh@[k]).actor == s.registry.unused()[k]
                    &&& fresh@[k].is_fresh_for(s.registry.actors@[fresh@[k].actor as int])
                    &&& fresh@[k].snapshot() == fresh_view(fresh@[k].actor, s.registry.actors@[fresh@[k].actor as int])
                    &&& fresh@[k].actor < s.registry.actors@.len()
                },
                base.len() == s.routes@.len(),
                forall|k: int| 0 <= k < base.len() ==> (#[trigger] base[k]).snapshot() == s.routes@[k].snapshot(),
                routes@.len() == base.len() + q,
                forall|k: int| 0 <= k < base.len() ==> #[trigger] routes@[k] == base[k],
                forall|k: int| 0 <= k < q ==> (#[trigger] routes@[base.len() + k]).snapshot() == fresh@[k].snapshot(),
                forall|k: int| 0 <= k < routes@.len() ==> {
                    &&& (#[trigger] routes@[k]).tour.wf()
                    &&& routes@[k].actor < s.registry.actors@.len()
                    &&& routes@[k].jobs_within(ctx.problem.jobs@.len())
                },
            decreases fresh@.len() - q,
        {
            let c = fresh[q].duplicate();
            proof {
                Tour::lemma_wf_same(fresh@[q as int].tour, c.tour);
                assert forall|p: int| 0 <= p < c.tour.activities@.len()
                    implies ((#[trigger] c.tour.activities@[p]).job matches Some(x) ==> x < ctx.problem.jobs@.len()) by {
                    if let Some(x) = c.tour.activities@[p].job {
                        assert(fresh@[q as int].tour.serves(x));
                    }
                }
            }
            routes.push(c);
            proof {
                assert(routes@[base.len() + q] == c);
            }
            q = q + 1;
        }
        proof {
            let cv = candidate_views(ctx.solution);
            let mv = routes@.map_values(|x: RouteContext| x.snapshot());
            let nr = s.routes@.len() as int;
            assert forall|k: int| 0 <= k < routes@.len() implies #[trigger] mv[k] == cv[k] by {
                if k >= nr {
                    assert(routes@[nr + (k - nr)].snapshot() == fresh@[k - nr].snapshot());
                }
            }
            assert(mv =~= cv);
        }
        routes
    }
}

fn combine_results(acc: InsertionResult, r: InsertionResult) -> (out: InsertionResult)
    ensures
        out.model() == combine_route_results(acc.model(), r.model()),
{
    let take_right = match (&acc, &r) {
        (InsertionResult::Success(a), InsertionResult::Success(b)) => b.cost < a.cost,
        (InsertionResult::Success(_), InsertionResult::Failure(_)) => false,
        (InsertionResult::Failure(_), InsertionResult::Success(_)) => true,
        (InsertionResult::Failure(_), InsertionResult::Failure(_)) => false,
    };
    if take_right {
        r
    } else {
        acc
    }
}

/// The best insertion of job `j` over every route the selector offers.
pub fn evaluate_job_insertion(ctx: &InsertionContext, j: usize, selector: &AllRouteSelector, policy: InsertionPosition) -> (r: InsertionResult)
    requires
        ctx.wf(),
        j < ctx.problem.jobs@.len(),
    ensures
        r.model() == job_result(*ctx, j, policy),
{
    let routes = selector.select(ctx);
    let ghost vs = candidate_views(ctx.solution);
    let ghost rs = route_results(*ctx, j, policy);
    let mut acc = InsertionResult::make_failure_with_code(-1, Some(j));
    let mut k: usize = 0;
    while k < routes.len()
        invariant
            ctx.wf(),
            j < ctx.problem.jobs@.len(),
            routes@.map_values(|x: RouteContext| x.snapshot()) == vs,
            vs == candidate_views(ctx.solution),
            rs == route_results(*ctx, j, policy),
            forall|q: int| 0 <= q < routes@.len() ==> {
                &&& (#[trigger] routes@[q]).tour.wf()
                &&& routes@[q].actor < ctx.solution.registry.actors@.len()
                &&& routes@[q].jobs_within(ctx.problem.jobs@.len())
            },
            k <= routes@.len(),
            acc.model() == fold_route_results(rs, k as int, j),
        decreases routes@.len() - k,
    {
        let res = evaluate_job_insertion_in_route(ctx, j, &routes[k], policy);
        proof {
            assert(vs[k as int] == routes@[k as int].snapshot());
            assert(rs[k as int] == res.model());
        }
        if k == 0 {
            acc = res;
        } else {
            acc = combine_results(acc, res);
        }
        k = k + 1;
    }
    acc
}

} // verus!

verus! {

/// The job a result is about, if any.
pub open spec fn result_job(r: ResultModel) -> Option<usize> {
    match r {
        ResultModel::Success { job, .. } => Some(job),
        ResultModel::Failure { job, .. } => job,
    }
}

/// A success targets an actor of the registry at a valid index of its route
/// (of an unused route when the actor is unused) and carries activities of
/// its job only.
pub open spec fn fits(s: SolutionContext, r: ResultModel) -> bool {
    match r {
        ResultModel::Success { job, index, activities, actor, .. } => {
            &&& actor < s.registry.actors@.len()
            &&& (s.registry.used@[actor as int] ==> exists|q: int| 0 <= q < s.routes@.len()
                && #[trigger] s.routes@[q].actor == actor && index <= s.routes@[q].tour.job_count())
            &&& (!s.registry.used@[actor as int] ==> index == 0)
            &&& activities.len() > 0
            &&& forall|q: int| 0 <= q < activities.len() ==> (#[trigger] activities[q]).job == Some(job)
        },
        ResultModel::Failure { .. } => true,
    }
}

/// The result fits the solution and is about a job of the batch (or none).
pub open spec fn applicable(s: SolutionContext, batch: Seq<usize>, r: ResultModel) -> bool {
    &&& fits(s, r)
    &&& (result_job(r) matches Some(x) ==> batch.contains(x))
}

pub proof fn lemma_route_result_fits(ctx: InsertionContext, j: usize, policy: InsertionPosition, k: int)
    requires
        ctx.wf(),
        j < ctx.problem.jobs@.len(),
        0 <= k < candidate_views(ctx.solution).len(),
    ensures
        fits(ctx.solution, route_results(ctx, j, policy)[k]),
        result_job(route_results(ctx, j, policy)[k]) == Some(j),
{
    let s = ctx.solution;
    let v = candidate_views(s)[k];
    let nr = s.routes@.len() as int;
    let job = ctx.problem.jobs@[j as int];
    assert(job.wf());
    if k < nr {
        assert(v == s.routes@[k].snapshot());
        assert(s.routes@[k].actor < s.registry.actors@.len());
    } else {
        lemma_unused_prefix(s.registry.used@, s.registry.used@.len() as int, k - nr);
        assert(v == fresh_view(s.registry.unused()[k - nr], s.registry.actors@[s.registry.unused()[k - nr] as int]));
    }
    let st = eval_blocks(ctx, j, v, policy, EvalState { best: None, code: None, stopped: false }, 0);
    lemma_eval_blocks_bounds(ctx, j, v, policy, EvalState { best: None, code: None, stopped: false }, 0);
}

proof fn lemma_eval_blocks_bounds(ctx: InsertionContext, j: usize, v: RouteView, policy: InsertionPosition, acc: EvalState, b: int)
    requires
        acc.best matches Some(bb) ==> 0 <= bb.2 <= v.job_count() && 0 <= bb.1 < block_count(ctx.problem.jobs@[j as int]),
        v.job_count() >= 0,
    ensures
        eval_blocks(ctx, j, v, policy, acc, b).best matches Some(bb)
            ==> 0 <= bb.2 <= v.job_count() && 0 <= bb.1 < block_count(ctx.problem.jobs@[j as int]),
    decreases block_count(ctx.problem.jobs@[j as int]) - b,
{
    if !(b < 0 || b >= block_count(ctx.problem.jobs@[j as int]) || acc.stopped) {
        lemma_eval_positions_bounds(ctx, j, v, policy, acc, b, 0);
        lemma_eval_blocks_bounds(ctx, j, v, policy, eval_positions(ctx, j, v, policy, acc, b, 0), b + 1);
    }
}

proof fn lemma_eval_positions_bounds(ctx: InsertionContext, j: usize, v: RouteView, policy: InsertionPosition, acc: EvalState, b: int, k: int)
    requires
        acc.best matches Some(bb) ==> 0 <= bb.2 <= v.job_count() && 0 <= bb.1 < block_count(ctx.problem.jobs@[j as int]),
        0 <= b < block_count(ctx.problem.jobs@[j as int]),
        v.job_count() >= 0,
    ensures
        eval_positions(ctx, j, v, policy, acc, b, k).best matches Some(bb)
            ==> 0 <= bb.2 <= v.job_count() && 0 <= bb.1 < block_count(ctx.problem.jobs@[j as int]),
    decreases position_count(policy, v.job_count()) - k,
{
    if !(k < 0 || k >= position_count(policy, v.job_count()) || acc.stopped) {
        lemma_eval_positions_bounds(ctx, j, v, policy, eval_step(ctx, j, v, policy, acc, b, k), b, k + 1);
    }
}

proof fn lemma_fold_route_results_fits(ctx: InsertionContext, j: usize, policy: InsertionPosition, n: int)
    requires
        ctx.wf(),
        j < ctx.problem.jobs@.len(),
        n <= candidate_views(ctx.solution).len(),
    ensures
        fits(ctx.solution, fold_route_results(route_results(ctx, j, policy), n, j)),
        result_job(fold_route_results(route_results(ctx, j, policy), n, j)) == Some(j),
    decreases n,
{
    if n >= 1 {
        lemma_route_result_fits(ctx, j, policy, n - 1);
    }
    if n > 1 {
        lemma_fold_route_results_fits(ctx, j, policy, n - 1);
    }
}

/// The best insertion of a job fits the solution and is about that job.
pub proof fn lemma_job_result_fits(ctx: InsertionContext, j: usize, policy: InsertionPosition)
    requires
        ctx.wf(),
        j < ctx.problem.jobs@.len(),
    ensures
        fits(ctx.solution, job_result(ctx, j, policy)),
        result_job(job_result(ctx, j, policy)) == Some(j),
{
    lemma_fold_route_results_fits(ctx, j, policy, candidate_views(ctx.solution).len() as int);
}

} // verus!

verus! {

/// Picks one of two insertion results.
pub trait ResultSelector {
    /// The result picked from `left` and `right`.
    spec fn picks(&self, left: ResultModel, right: ResultModel) -> ResultModel;

    /// Picks one of the two; a failure without a job never wins.
    fn select(&self, left: InsertionResult, right: InsertionResult) -> (r: InsertionResult)
        ensures
            r.model() == self.picks(left.model(), right.model()),
            r.model() == left.model() || r.model() == right.model(),
            left.model() == (ResultModel::Failure { code: -1i32, job: None }) ==> r.model() == right.model();
}

/// Folds results pairwise with the selector, starting from a failure without
/// a job.
pub open spec fn pair_fold_with<S: ResultSelector>(sel: S, rs: Seq<ResultModel>, n: int) -> ResultModel
    decreases n,
{
    if n <= 0 {
        ResultModel::Failure { code: -1i32, job: None }
    } else {
        sel.picks(pair_fold_with(sel, rs, n - 1), rs[n - 1])
    }
}

/// The pair fold with the best-result rule.
pub open spec fn pair_fold(rs: Seq<ResultModel>, n: int) -> ResultModel {
    pair_fold_with(BestResultSelector {}, rs, n)
}

/// The best insertion of each job of the batch, in batch order.
pub open spec fn batch_results(ctx: InsertionContext, batch: Seq<usize>, policy: InsertionPosition) -> Seq<ResultModel> {
    batch.map_values(|j: usize| job_result(ctx, j, policy))
}

/// What the pair reducer returns for a batch.
pub open spec fn pair_reduce(ctx: InsertionContext, batch: Seq<usize>, policy: InsertionPosition) -> ResultModel {
    pair_fold(batch_results(ctx, batch, policy), batch.len() as int)
}

/// Selects the better of two results.
#[derive(Clone, Copy, Debug, PartialEq, Eq, Structural)]
pub struct BestResultSelector {}

impl Default for BestResultSelector {
    fn default() -> (r: Self)
        ensures
            r == (BestResultSelector {}),
    {
        BestResultSelector {}
    }
}

impl BestResultSelector {
    pub fn new() -> (r: BestResultSelector)
        ensures
            r == (BestResultSelector {}),
    {
        BestResultSelector {}
    }
}

impl ResultSelector for BestResultSelector {
    open spec fn picks(&self, left: ResultModel, right: ResultModel) -> ResultModel {
        best_result(left, right)
    }

    fn select(&self, left: InsertionResult, right: InsertionResult) -> (r: InsertionResult) {
        InsertionResult::choose_best_result(left, right)
    }
}

/// Maps every job of the batch through the evaluator and folds the results
/// pairwise with the result selector.
#[derive(Clone, Copy, Debug)]
pub struct PairJobMapReducer<S> {
    pub route_selector: AllRouteSelector,
    pub result_selector: S,
}

impl<S: ResultSelector> PairJobMapReducer<S> {
    pub fn new(route_selector: AllRouteSelector, result_selector: S) -> (r: PairJobMapReducer<S>)
        ensures
            r.route_selector == route_selector,
            r.result_selector == result_selector,
    {
        PairJobMapReducer { route_selector, result_selector }
    }

    pub fn reduce_jobs(&self, ctx: &InsertionContext, jobs: &Vec<usize>, policy: InsertionPosition) -> (r: InsertionResult)
        requires
            ctx.wf(),
            forall|k: int| 0 <= k < jobs@.len() ==> #[trigger] jobs@[k] < ctx.problem.jobs@.len(),
        ensures
            r.model() == pair_fold_with(self.result_selector, batch_results(*ctx, jobs@, policy), jobs@.len() as int),
            applicable(ctx.solution, jobs@, r.model()),
            jobs@.len() > 0 ==> result_job(r.model()) is Some,
    {
        let mut acc = InsertionResult::make_failure();
        let mut k: usize = 0;
        while k < jobs.len()
            invariant
                ctx.wf(),
                forall|q: int| 0 <= q < jobs@.len() ==> #[trigger] jobs@[q] < ctx.problem.jobs@.len(),
                k <= jobs@.len(),
                acc.model() == pair_fold_with(self.result_selector, batch_results(*ctx, jobs@, policy), k as int),
                k == 0 ==> acc.model() == (ResultModel::Failure { code: -1i32, job: None }),
                applicable(ctx.solution, jobs@, acc.model()),
                k > 0 ==> result_job(acc.model()) is Some,
            decreases jobs@.len() - k,
        {
            let j = jobs[k];
            let res = evaluate_job_insertion(ctx, j, &self.route_selector, policy);
            proof {
                lemma_job_result_fits(*ctx, j, policy);
                assert(jobs@.contains(j));
            }
            acc = self.result_selector.select(acc, res);
            k = k + 1;
        }
        acc
    }
}

/// Characterizes the pair fold: it succeeds iff some result succeeds, and
/// then with the least cost among the successes.
pub proof fn lemma_pair_fold_min(rs: Seq<ResultModel>, n: int)
    requires
        0 <= n <= rs.len(),
    ensures
        pair_fold(rs, n) is Success <==> exists|k: int| 0 <= k < n && (#[trigger] rs[k]) is Success,
        pair_fold(rs, n) matches ResultModel::Success { cost: c, .. } ==> {
            &&& exists|k: int| 0 <= k < n && (#[trigger] rs[k]) is Success && rs[k]->Success_cost == c
            &&& forall|k: int| 0 <= k < n && (#[trigger] rs[k]) is Success ==> c <= rs[k]->Success_cost
        },
    decreases n,
{
    if n > 0 {
        lemma_pair_fold_min(rs, n - 1);
    }
}

/// Folding the same jobs in another order still yields a success of the
/// same cost.
pub proof fn lemma_pair_reduce_order_independent(
    ctx: InsertionContext,
    b1: Seq<usize>,
    b2: Seq<usize>,
    policy: InsertionPosition,
)
    requires
        b1.to_multiset() == b2.to_multiset(),
        pair_reduce(ctx, b1, policy) is Success,
    ensures
        pair_reduce(ctx, b2, policy) is Success,
        pair_reduce(ctx, b2, policy)->Success_cost == pair_reduce(ctx, b1, policy)->Success_cost,
{
    broadcast use vstd::seq_lib::group_to_multiset_ensures;
    let rs1 = batch_results(ctx, b1, policy);
    let rs2 = batch_results(ctx, b2, policy);
    lemma_pair_fold_min(rs1, b1.len() as int);
    lemma_pair_fold_min(rs2, b2.len() as int);
    assert forall|k: int| 0 <= k < b1.len() implies exists|k2: int| 0 <= k2 < b2.len() && #[trigger] rs2[k2] == #[trigger] rs1[k] by {
        assert(b1.to_multiset().count(b1[k]) > 0);
        assert(b2.contains(b1[k]));
        let k2 = choose|k2: int| 0 <= k2 < b2.len() && b2[k2] == b1[k];
        assert(rs2[k2] == rs1[k]);
    }
    assert forall|k: int| 0 <= k < b2.len() implies exists|k1: int| 0 <= k1 < b1.len() && #[trigger] rs1[k1] == #[trigger] rs2[k] by {
        assert(b2.to_multiset().count(b2[k]) > 0);
        assert(b1.contains(b2[k]));
        let k1 = choose|k1: int| 0 <= k1 < b1.len() && b1[k1] == b2[k];
        assert(rs1[k1] == rs2[k]);
    }
    let c1 = pair_reduce(ctx, b1, policy)->Success_cost;
    let w1 = choose|k: int| 0 <= k < b1.len() && (#[trigger] rs1[k]) is Success && rs1[k]->Success_cost == c1;
    let w1b = choose|k2: int| 0 <= k2 < b2.len() && #[trigger] rs2[k2] == rs1[w1];
    assert(rs2[w1b] is Success);
    let c2 = pair_reduce(ctx, b2, policy)->Success_cost;
    let w2 = choose|k: int| 0 <= k < b2.len() && (#[trigger] rs2[k]) is Success && rs2[k]->Success_cost == c2;
    let w2b = choose|k1: int| 0 <= k1 < b1.len() && #[trigger] rs1[k1] == rs2[w2];
    assert(c2 <= rs2[w1b]->Success_cost);
    assert(c1 <= rs1[w2b]->Success_cost);
}

} // verus!
