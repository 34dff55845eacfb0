//! Regret-k recreate: inserts first the job that loses most when its best
//! route is taken, measured as the gap between its k-th best and best costs.
use vstd::prelude::*;
use crate::solution::RouteContext;
use crate::problem::InsertionContext;
use crate::evaluator::{InsertionPosition, MAX_INSERTION_COST, evaluate_job_insertion_in_route};
use crate::insertions::{InsertionResult, ResultModel, AllRouteSelector, BestResultSelector, PairJobMapReducer,
    route_results, candidate_views, pair_reduce, applicable, fits, result_job, lemma_route_result_fits};
use crate::pipeline::{has_break, ignored_breaks_only};
use crate::heuristic::{reported_failure, AllJobSelector, JobMapReducer, InsertionHeuristic, Quota};
use crate::actor_set::{ActorSet, actor_set_contents};

verus! {

/// The successes among the first `n` results, in order.
pub open spec fn success_prefix(rs: Seq<ResultModel>, n: int) -> Seq<ResultModel>
    decreases n,
{
    if n <= 0 {
        Seq::empty()
    } else if rs[n - 1] is Success {
        success_prefix(rs, n - 1).push(rs[n - 1])
    } else {
        success_prefix(rs, n - 1)
    }
}

/// Index of the first cheapest result among `s[0..i]` and `best`, scanning from `i`.
pub open spec fn first_min_from(s: Seq<ResultModel>, i: int, best: int) -> int
    decreases s.len() - i,
{
    if i < 0 || i >= s.len() {
        best
    } else if s[i]->Success_cost < s[best]->Success_cost {
        first_min_from(s, i + 1, i)
    } else {
        first_min_from(s, i + 1, best)
    }
}

/// Index of the first cheapest result.
pub open spec fn first_min(s: Seq<ResultModel>) -> int {
    first_min_from(s, 1, 0)
}

/// Takes results cheapest first (earliest on equal cost), keeping one per
/// actor, until `limit` are kept or none is left.
pub open spec fn ordered_unique(rem: Seq<ResultModel>, seen: Set<usize>, kept: Seq<ResultModel>, limit: nat) -> Seq<ResultModel>
    decreases rem.len(),
{
    let m = first_min(rem);
    if rem.len() == 0 || kept.len() >= limit || !(0 <= m < rem.len()) {
        kept
    } else {
        let e = rem[m];
        if seen.contains(e->Success_actor) {
            ordered_unique(rem.remove(m), seen, kept, limit)
        } else {
            ordered_unique(rem.remove(m), seen.insert(e->Success_actor), kept.push(e), limit)
        }
    }
}

/// The regret of job `x`: the gap between its `k`-th best and best costs over
/// distinct actors, with its best insertion, when it has at least `k` of them.
pub open spec fn regret_candidate(ctx: InsertionContext, x: usize, policy: InsertionPosition, k: nat) -> Option<(int, ResultModel)> {
    let rs = route_results(ctx, x, policy);
    let kept = ordered_unique(success_prefix(rs, rs.len() as int), Set::empty(), Seq::empty(), k);
    if k >= 1 && kept.len() >= k {
        Some((kept[k - 1]->Success_cost - kept[0]->Success_cost, kept[0]))
    } else {
        None
    }
}

/// The candidate of highest regret among the first `n` jobs, the earliest on ties.
pub open spec fn regret_pick(ctx: InsertionContext, batch: Seq<usize>, policy: InsertionPosition, k: nat, n: int) -> Option<(int, ResultModel)>
    decreases n,
{
    if n <= 0 {
        None
    } else {
        let prev = regret_pick(ctx, batch, policy, k, n - 1);
        match regret_candidate(ctx, batch[n - 1], policy, k) {
            None => prev,
            Some(c) => match prev {
                None => Some(c),
                Some(p) => if c.0 > p.0 { Some(c) } else { prev },
            },
        }
    }
}

/// What the regret reducer returns for regret index `k`.
pub open spec fn regret_reduce(ctx: InsertionContext, batch: Seq<usize>, policy: InsertionPosition, k: nat) -> ResultModel {
    if k <= 1 || batch.len() == 1 || ctx.solution.routes@.len() < 2 {
        pair_reduce(ctx, batch, policy)
    } else {
        match regret_pick(ctx, batch, policy, k, batch.len() as int) {
            Some(c) => c.1,
            None => pair_reduce(ctx, batch, policy),
        }
    }
}

pub open spec fn models(v: Seq<InsertionResult>) -> Seq<ResultModel> {
    v.map_values(|r: InsertionResult| r.model())
}

/// A success of job `x` that fits the solution, with a bounded cost.
pub open spec fn good_success(ctx: InsertionContext, x: usize, e: ResultModel) -> bool {
    &&& e is Success
    &&& fits(ctx.solution, e)
    &&& result_job(e) == Some(x)
    &&& -MAX_INSERTION_COST <= e->Success_cost <= MAX_INSERTION_COST
}

fn first_min_exec(v: &Vec<InsertionResult>) -> (m: usize)
    requires
        v@.len() > 0,
        forall|q: int| 0 <= q < v@.len() ==> (#[trigger] v@[q]).model() is Success,
    ensures
        m == first_min(models(v@)),
        m < v@.len(),
{
    let ghost s = models(v@);
    let mut best: usize = 0;
    let mut i: usize = 1;
    while i < v.len()
        invariant
            s == models(v@),
            1 <= i <= v@.len(),
            best < i,
            forall|q: int| 0 <= q < v@.len() ==> (#[trigger] v@[q]).model() is Success,
            first_min(s) == first_min_from(s, i as int, best as int),
        decreases v@.len() - i,
    {
        let ci = match &v[i] {
            InsertionResult::Success(x) => x.cost,
            InsertionResult::Failure(_) => 0,
        };
        let cb = match &v[best] {
            InsertionResult::Success(x) => x.cost,
            InsertionResult::Failure(_) => 0,
        };
        assert(s[i as int]->Success_cost == ci);
        assert(s[best as int]->Success_cost == cb);
        if ci < cb {
            best = i;
        }
        i = i + 1;
    }
    best
}

proof fn lemma_first_min_in_range(s: Seq<ResultModel>, i: int, best: int)
    requires
        0 <= best < s.len(),
        0 <= i,
    ensures
        0 <= first_min_from(s, i, best) < s.len(),
    decreases s.len() - i,
{
    if i < s.len() {
        if s[i]->Success_cost < s[best]->Success_cost {
            lemma_first_min_in_range(s, i + 1, i);
        } else {
            lemma_first_min_in_range(s, i + 1, best);
        }
    }
}

proof fn lemma_ordered_unique_good(ctx: InsertionContext, x: usize, rem: Seq<ResultModel>, seen: Set<usize>, kept: Seq<ResultModel>, limit: nat)
    requires
        forall|q: int| 0 <= q < rem.len() ==> good_success(ctx, x, #[trigger] rem[q]),
        forall|q: int| 0 <= q < kept.len() ==> good_success(ctx, x, #[trigger] kept[q]),
    ensures
        forall|q: int| 0 <= q < ordered_unique(rem, seen, kept, limit).len()
            ==> good_success(ctx, x, #[trigger] ordered_unique(rem, seen, kept, limit)[q]),
        ordered_unique(rem, seen, kept, limit).len() >= kept.len(),
        forall|q: int| 0 <= q < kept.len() ==> #[trigger] ordered_unique(rem, seen, kept, limit)[q] == kept[q],
    decreases rem.len(),
{
    if !(rem.len() == 0 || kept.len() >= limit) {
        let m = first_min(rem);
        lemma_first_min_in_range(rem, 1, 0);
        assert(0 <= m < rem.len());
        let e = rem[m];
        assert forall|q: int| 0 <= q < rem.remove(m).len() implies good_success(ctx, x, #[trigger] rem.remove(m)[q]) by {
            if q < m {
                assert(rem.remove(m)[q] == rem[q]);
            } else {
                assert(rem.remove(m)[q] == rem[q + 1]);
            }
        }
        if seen.contains(e->Success_actor) {
            lemma_ordered_unique_good(ctx, x, rem.remove(m), seen, kept, limit);
        } else {
            let k2 = kept.push(e);
            assert forall|q: int| 0 <= q < k2.len() implies good_success(ctx, x, #[trigger] k2[q]) by {
                if q < kept.len() {
                    assert(k2[q] == kept[q]);
                }
            }
            lemma_ordered_unique_good(ctx, x, rem.remove(m), seen.insert(e->Success_actor), k2, limit);
            assert forall|q: int| 0 <= q < kept.len() implies #[trigger] ordered_unique(rem, seen, kept, limit)[q] == kept[q] by {
                assert(k2[q] == kept[q]);
            }
        }
    }
}

/// Evaluates job `x` in every route and returns its regret and best insertion
/// when it has more than `k` successes over distinct actors.
fn job_regret(ctx: &InsertionContext, x: usize, selector: &AllRouteSelector, policy: InsertionPosition, k: usize) -> (r: Option<(i128, InsertionResult)>)
    requires
        ctx.wf(),
        x < ctx.problem.jobs@.len(),
    ensures
        match regret_candidate(*ctx, x, policy, k as nat) {
            Some(c) => r matches Some(p) && p.0 == c.0 && p.1.model() == c.1,
            None => r is None,
        },
        r matches Some(p) ==> good_success(*ctx, x, p.1.model()),
{
    let routes = selector.select(ctx);
    let ghost rs = route_results(*ctx, x, policy);
    let ghost vs = candidate_views(ctx.solution);
    let mut succ: Vec<InsertionResult> = Vec::new();
    let mut q: usize = 0;
    while q < routes.len()
        invariant
            ctx.wf(),
            x < ctx.problem.jobs@.len(),
            routes@.map_values(|y: RouteContext| y.snapshot()) == vs,
            vs == candidate_views(ctx.solution),
            rs == route_results(*ctx, x, policy),
            forall|p: int| 0 <= p < routes@.len() ==> {
                &&& (#[trigger] routes@[p]).tour.wf()
                &&& routes@[p].actor < ctx.solution.registry.actors@.len()
                &&& routes@[p].jobs_within(ctx.problem.jobs@.len())
            },
            q <= routes@.len(),
            models(succ@) == success_prefix(rs, q as int),
            forall|p: int| 0 <= p < succ@.len() ==> good_success(*ctx, x, #[trigger] succ@[p].model()),
        decreases routes@.len() - q,
    {
        let res = evaluate_job_insertion_in_route(ctx, x, &routes[q], policy);
        proof {
            assert(vs[q as int] == routes@[q as int].snapshot());
            assert(rs[q as int] == res.model());
            lemma_route_result_fits(*ctx, x, policy, q as int);
        }
        let ghost before = succ@;
        let is_success = match &res {
            InsertionResult::Success(_) => true,
            InsertionResult::Failure(_) => false,
        };
        if is_success {
            succ.push(res);
            proof {
                assert(models(succ@) =~= models(before).push(rs[q as int]));
            }
        }
        q = q + 1;
    }
    proof {
        assert forall|p: int| 0 <= p < models(succ@).len() implies good_success(*ctx, x, #[trigger] models(succ@)[p]) by {
            assert(models(succ@)[p] == succ@[p].model());
        }
        lemma_ordered_unique_good(*ctx, x, models(succ@), Set::empty(), Seq::empty(), k as nat);
    }
    let ghost target = ordered_unique(models(succ@), Set::empty(), Seq::empty(), k as nat);
    let mut seen = ActorSet::new();
    let mut rem = succ;
    let mut kept: Vec<InsertionResult> = Vec::new();
    assert(models(kept@) =~= Seq::<ResultModel>::empty());
    while rem.len() > 0 && kept.len() < k
        invariant
            target == ordered_unique(models(rem@), actor_set_contents(seen), models(kept@), k as nat),
            forall|p: int| 0 <= p < rem@.len() ==> good_success(*ctx, x, #[trigger] rem@[p].model()),
            forall|p: int| 0 <= p < kept@.len() ==> good_success(*ctx, x, #[trigger] kept@[p].model()),
        decreases rem@.len(),
    {
        let m = first_min_exec(&rem);
        proof {
            lemma_first_min_in_range(models(rem@), 1, 0);
        }
        let ghost rem_before = rem@;
        let ghost kept_before = kept@;
        let e = rem.remove(m);
        proof {
            assert(models(rem@) =~= models(rem_before).remove(m as int));
            assert(e.model() == models(rem_before)[m as int]);
        }
        let actor = match &e {
            InsertionResult::Success(s) => s.actor,
            InsertionResult::Failure(_) => 0,
        };
        if !seen.contains(actor) {
            seen.insert(actor);
            kept.push(e);
            proof {
                assert(models(kept@) =~= models(kept_before).push(e.model()));
            }
        }
        proof {
            assert forall|p: int| 0 <= p < rem@.len() implies good_success(*ctx, x, #[trigger] rem@[p].model()) by {
                if p < m {
                    assert(rem@[p] == rem_before[p]);
                } else {
                    assert(rem@[p] == rem_before[p + 1]);
                }
            }
        }
    }
    proof {
        assert(models(kept@) == target);
    }
    if k >= 1 && kept.len() >= k {
        let worst = match &kept[k - 1] {
            InsertionResult::Success(s) => s.cost,
            InsertionResult::Failure(_) => 0,
        };
        let best = kept.remove(0);
        let best_cost = match &best {
            InsertionResult::Success(s) => s.cost,
            InsertionResult::Failure(_) => 0,
        };
        proof {
            assert(target[k - 1] == models(kept@.insert(0, best))[k - 1]);
        }
        Some((worst - best_cost, best))
    } else {
        None
    }
}

/// Regret reducer: draws `k` from `[min, max]` at each step.
pub struct RegretJobMapReducer {
    pub min: usize,
    pub max: usize,
    pub route_selector: AllRouteSelector,
    pub inner_reducer: PairJobMapReducer<BestResultSelector>,
}

impl RegretJobMapReducer {
    pub fn new(min: usize, max: usize) -> (r: RegretJobMapReducer)
        requires
            0 < min <= max,
        ensures
            r.min == min,
            r.max == max,
    {
        RegretJobMapReducer {
            min,
            max,
            route_selector: AllRouteSelector::new(),
            inner_reducer: PairJobMapReducer::new(AllRouteSelector::new(), BestResultSelector::new()),
        }
    }

    pub open spec fn wf(&self) -> bool {
        0 < self.min <= self.max
    }

    /// The reduction for a given regret index `k`.
    pub fn reduce_with_k(&self, ctx: &InsertionContext, jobs: &Vec<usize>, policy: InsertionPosition, k: usize) -> (r: InsertionResult)
        requires
            ctx.wf(),
            forall|q: int| 0 <= q < jobs@.len() ==> #[trigger] jobs@[q] < ctx.problem.jobs@.len(),
        ensures
            r.model() == regret_reduce(*ctx, jobs@, policy, k as nat),
            (k == 1 || ctx.solution.routes@.len() < 2) ==> r.model() == pair_reduce(*ctx, jobs@, policy),
            applicable(ctx.solution, jobs@, r.model()),
            jobs@.len() > 0 ==> result_job(r.model()) is Some,
    {
        if k <= 1 || jobs.len() == 1 || ctx.solution.routes.len() < 2 {
            return self.inner_reducer.reduce_jobs(ctx, jobs, policy);
        }
        let mut best: Option<(i128, InsertionResult)> = None;
        let mut q: usize = 0;
        while q < jobs.len()
            invariant
                ctx.wf(),
                forall|p: int| 0 <= p < jobs@.len() ==> #[trigger] jobs@[p] < ctx.problem.jobs@.len(),
                q <= jobs@.len(),
                match regret_pick(*ctx, jobs@, policy, k as nat, q as int) {
                    Some(c) => best matches Some(p) && p.0 == c.0 && p.1.model() == c.1,
                    None => best is None,
                },
                best matches Some(p) ==> p.1.model() is Success && fits(ctx.solution, p.1.model())
                    && (result_job(p.1.model()) matches Some(y) && jobs@.contains(y)),
            decreases jobs@.len() - q,
        {
            let x = jobs[q];
            let cand = job_regret(ctx, x, &self.route_selector, policy, k);
            proof {
                assert(jobs@.contains(x));
            }
            match cand {
                Some(c) => {
                    let replace = match &best {
                        None => true,
                        Some(p) => c.0 > p.0,
                    };
                    if replace {
                        best = Some(c);
                    }
                },
                None => {},
            }
            q = q + 1;
        }
        match best {
            Some(p) => p.1,
            None => self.inner_reducer.reduce_jobs(ctx, jobs, policy),
        }
    }
}

impl JobMapReducer for RegretJobMapReducer {
    open spec fn reduces_to(&self, ctx: InsertionContext, jobs: Seq<usize>, policy: InsertionPosition, r: ResultModel) -> bool {
        exists|k: nat| (if self.wf() { self.min <= k <= self.max } else { k == self.min })
            && r == #[trigger] regret_reduce(ctx, jobs, policy, k)
    }

    fn reduce(&self, ctx: &InsertionContext, jobs: &Vec<usize>, policy: InsertionPosition) -> (r: InsertionResult) {
        self.reduce_jobs(ctx, jobs, policy)
    }
}

impl RegretJobMapReducer {
    /// Draws the regret index from `[min, max]` and reduces with it.
    pub fn reduce_jobs(&self, ctx: &InsertionContext, jobs: &Vec<usize>, policy: InsertionPosition) -> (r: InsertionResult)
        requires
            ctx.wf(),
            forall|q: int| 0 <= q < jobs@.len() ==> #[trigger] jobs@[q] < ctx.problem.jobs@.len(),
        ensures
            applicable(ctx.solution, jobs@, r.model()),
            exists|k: nat| (if self.wf() { self.min <= k <= self.max } else { k == self.min })
                && r.model() == #[trigger] regret_reduce(*ctx, jobs@, policy, k),
            jobs@.len() > 0 ==> result_job(r.model()) is Some,
    {
        let k = if 0 < self.min && self.min <= self.max { ctx.random.uniform_usize(self.min, self.max) } else { self.min };
        let r = self.reduce_with_k(ctx, jobs, policy, k);
        proof {
            assert(r.model() == regret_reduce(*ctx, jobs@, policy, k as nat));
        }
        r
    }
}

/// A recreate strategy that inserts by regret over every required job.
pub struct RecreateWithRegret {
    pub job_selector: AllJobSelector,
    pub job_reducer: RegretJobMapReducer,
}

impl Default for RecreateWithRegret {
    fn default() -> (r: Self)
        ensures
            r.job_reducer.min == 1,
            r.job_reducer.max == 2,
    {
        RecreateWithRegret::new(1, 2)
    }
}

impl RecreateWithRegret {
    pub fn new(min: usize, max: usize) -> (r: RecreateWithRegret)
        requires
            0 < min <= max,
        ensures
            r.job_reducer.min == min,
            r.job_reducer.max == max,
    {
        RecreateWithRegret { job_selector: AllJobSelector::new(), job_reducer: RegretJobMapReducer::new(min, max) }
    }

    pub fn run<Q: Quota>(&self, ctx: InsertionContext, quota: Option<&Q>) -> (r: InsertionContext)
        requires
            ctx.wf(),
        ensures
            r.wf(),
            r.problem == ctx.problem,
            (!has_break(ctx.problem.pipeline.modules@) || ignored_breaks_only(ctx.solution, ctx.problem.jobs@))
                ==> r.solution.required@.len() == 0,
            quota.is_none() ==> forall|e: (usize, i32)| #[trigger] r.solution.unassigned@.contains(e)
                ==> reported_failure(self.job_reducer, InsertionPosition::Any, e),
    {
        let heuristic = InsertionHeuristic::new(InsertionPosition::Any);
        heuristic.process(&self.job_selector, &self.job_reducer, ctx, quota)
    }
}

} // verus!
