//! Gaps recreate: each step offers a random subset of the required jobs.
use vstd::prelude::*;
use crate::problem::InsertionContext;
use crate::solution::SolutionContext;
use crate::evaluator::InsertionPosition;
use crate::insertions::{AllRouteSelector, BestResultSelector, PairJobMapReducer};
use crate::pipeline::{has_break, ignored_breaks_only};
use crate::heuristic::{reported_failure, JobSelector, InsertionHeuristic, Quota};

verus! {

/// Shuffles the required jobs, then offers a prefix whose length is drawn
/// from `[min_jobs, max(min_jobs, |required|)]`.
#[derive(Clone, Copy, Debug, PartialEq, Eq, Structural)]
pub struct GapsJobSelector {
    pub min_jobs: usize,
}

/// The jobs offered when `take` is drawn from a shuffled `required`.
pub open spec fn gaps_prefix(required: Seq<usize>, take: int) -> Seq<usize> {
    if take >= required.len() { required } else { required.take(take) }
}

impl GapsJobSelector {
    /// The jobs offered for a given shuffled order and drawn length.
    pub fn take_prefix(required: &Vec<usize>, take: usize) -> (jobs: Vec<usize>)
        ensures
            jobs@ == gaps_prefix(required@, take as int),
    {
        let mut jobs: Vec<usize> = Vec::new();
        let mut i: usize = 0;
        while i < required.len() && i < take
            invariant
                i <= required@.len(),
                i <= take,
                jobs@ == required@.take(i as int),
            decreases required@.len() - i,
        {
            jobs.push(required[i]);
            assert(jobs@ =~= required@.take(i + 1));
            i = i + 1;
        }
        assert(required@.take(required@.len() as int) =~= required@);
        jobs
    }
}

impl JobSelector for GapsJobSelector {
    open spec fn never_empty(&self) -> bool {
        self.min_jobs >= 1
    }

    fn select(&self, ctx: &mut InsertionContext) -> (jobs: Vec<usize>) {
        self.select_jobs(ctx)
    }
}

impl GapsJobSelector {
    /// Shuffles `required`, then offers a prefix of it whose length is drawn
    /// from `[min_jobs, max(min_jobs, |required|)]`.
    pub fn select_jobs(&self, ctx: &mut InsertionContext) -> (jobs: Vec<usize>)
        requires
            old(ctx).wf(),
        ensures
            final(ctx).wf(),
            final(ctx).problem == old(ctx).problem,
            final(ctx).solution == (SolutionContext { required: final(ctx).solution.required, ..old(ctx).solution }),
            final(ctx).solution.required@.to_multiset() == old(ctx).solution.required@.to_multiset(),
            forall|k: int| 0 <= k < jobs@.len() ==> final(ctx).solution.required@.contains(#[trigger] jobs@[k]),
            self.min_jobs >= 1 && old(ctx).solution.required@.len() > 0 ==> jobs@.len() > 0,
            exists|take: int| self.min_jobs <= take
                && (take <= self.min_jobs || take <= old(ctx).solution.required@.len())
                && jobs@ == gaps_prefix(final(ctx).solution.required@, take),
    {
        broadcast use vstd::seq_lib::group_to_multiset_ensures;
        let ghost pre = ctx.solution;
        ctx.random.shuffle_jobs(&mut ctx.solution.required);
        proof {
            assert forall|x: usize| #[trigger] ctx.solution.occurrences(x) == pre.occurrences(x) by {
                assert(ctx.solution.required@.to_multiset().count(x) == pre.required@.to_multiset().count(x));
            }
            assert(ctx.solution.disjoint());
            assert(ctx.solution.covers(ctx.problem.jobs@.len()));
        }
        let len = ctx.solution.required.len();
        let max_jobs = if self.min_jobs >= len { self.min_jobs } else { len };
        let take = ctx.random.uniform_usize(self.min_jobs, max_jobs);
        let jobs = GapsJobSelector::take_prefix(&ctx.solution.required, take);
        proof {
            assert(ctx.solution.required@.to_multiset().len() == pre.required@.to_multiset().len());
            assert(jobs@ == gaps_prefix(ctx.solution.required@, take as int));
            assert forall|k: int| 0 <= k < jobs@.len() implies ctx.solution.required@.contains(#[trigger] jobs@[k]) by {
                assert(ctx.solution.required@[k] == jobs@[k]);
            }
        }
        jobs
    }
}

/// A recreate strategy that offers a random subset of jobs at each step.
pub struct RecreateWithGaps {
    pub job_selector: GapsJobSelector,
    pub job_reducer: PairJobMapReducer<BestResultSelector>,
}

impl Default for RecreateWithGaps {
    fn default() -> (r: Self)
        ensures
            r.job_selector.min_jobs == 2,
    {
        RecreateWithGaps::new(2)
    }
}

impl RecreateWithGaps {
    pub fn new(min_jobs: usize) -> (r: RecreateWithGaps)
        ensures
            r.job_selector.min_jobs == min_jobs,
    {
        RecreateWithGaps {
            job_selector: GapsJobSelector { min_jobs },
            job_reducer: PairJobMapReducer::new(AllRouteSelector::new(), BestResultSelector::new()),
        }
    }

    pub fn run<Q: Quota>(&self, ctx: InsertionContext, quota: Option<&Q>) -> (r: InsertionContext)
        requires
            ctx.wf(),
        ensures
            r.wf(),
            r.problem == ctx.problem,
            (!has_break(ctx.problem.pipeline.modules@) || ignored_breaks_only(ctx.solution, ctx.problem.jobs@))
                ==> r.solution.required@.len() == 0,
            quota.is_none() && self.job_selector.min_jobs >= 1 ==> forall|e: (usize, i32)| #[trigger] r.solution.unassigned@.contains(e)
                ==> reported_failure(self.job_reducer, InsertionPosition::Any, e),
    {
        let heuristic = InsertionHeuristic::new(InsertionPosition::Any);
        heuristic.process(&self.job_selector, &self.job_reducer, ctx, quota)
    }
}

} // verus!
