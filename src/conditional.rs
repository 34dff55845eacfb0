//! Conditional jobs: moves jobs between `required` and `ignored` according to a
//! predicate over the current solution.
use vstd::prelude::*;
use crate::models::Job;
use crate::solution::SolutionContext;
use crate::lemmas::{lemma_take_push_contains, lemma_push_contains, lemma_take_full};

verus! {

/// Decides whether a job must currently be placed. It must be a pure function
/// of the solution and the job.
pub trait JobRequirement {
    spec fn holds(&self, s: SolutionContext, jobs: Seq<Job>, j: usize) -> bool;

    fn is_required(&self, s: &SolutionContext, jobs: &Vec<Job>, j: usize) -> (r: bool)
        requires
            j < jobs@.len(),
            s.routes_match_registry(),
        ensures
            r == self.holds(*s, jobs@, j);
}

/// Whether `post` is `pre` with its required and ignored jobs repartitioned by
/// the requirement, everything else unchanged.
pub open spec fn reclassified<P: JobRequirement>(
    p: P,
    pre: SolutionContext,
    post: SolutionContext,
    jobs: Seq<Job>,
) -> bool {
    &&& forall|x: usize| #[trigger] post.required@.contains(x)
        <==> ((pre.required@.contains(x) || pre.ignored@.contains(x)) && p.holds(pre, jobs, x))
    &&& forall|x: usize| #[trigger] post.ignored@.contains(x)
        <==> ((pre.required@.contains(x) || pre.ignored@.contains(x)) && !p.holds(pre, jobs, x))
    &&& post.unassigned == pre.unassigned
    &&& post.locked == pre.locked
    &&& post.routes == pre.routes
    &&& post.registry == pre.registry
    &&& post.max_cost == pre.max_cost
}

/// A module that keeps the required set in line with a requirement.
pub struct ConditionalJobModule<P> {
    pub requirement: P,
}

impl<P: JobRequirement> ConditionalJobModule<P> {
    pub fn new(requirement: P) -> (r: Self)
        ensures
            r.requirement == requirement,
    {
        ConditionalJobModule { requirement }
    }

    /// Moves the required jobs that fail the requirement to `ignored`, and
    /// the ignored jobs that meet it back to `required`; the requirement is
    /// evaluated on the solution as it was on entry.
    pub fn accept_solution_state(&self, s: &mut SolutionContext, jobs: &Vec<Job>)
        requires
            old(s).routes_match_registry(),
            old(s).covers(jobs@.len()),
        ensures
            reclassified(self.requirement, *old(s), *final(s), jobs@),
    {
        let ghost pre = *s;
        let mut required: Vec<usize> = Vec::new();
        let mut ignored: Vec<usize> = Vec::new();
        let mut i: usize = 0;
        while i < s.required.len()
            invariant
                *s == pre,
                s.routes_match_registry(),
                s.covers(jobs@.len()),
                i <= s.required@.len(),
                forall|x: usize| #[trigger] required@.contains(x)
                    <==> (s.required@.take(i as int).contains(x) && self.requirement.holds(pre, jobs@, x)),
                forall|x: usize| #[trigger] ignored@.contains(x)
                    <==> (s.required@.take(i as int).contains(x) && !self.requirement.holds(pre, jobs@, x)),
            decreases s.required@.len() - i,
        {
            let j = s.required[i];
            assert(s.occurrences(j) >= 1);
            let keep = self.requirement.is_required(s, jobs, j);
            let ghost old_required = required@;
            let ghost old_ignored = ignored@;
            if keep {
                required.push(j);
            } else {
                ignored.push(j);
            }
            proof {
                assert forall|x: usize| #[trigger] required@.contains(x)
                    <==> (s.required@.take(i + 1).contains(x) && self.requirement.holds(pre, jobs@, x)) by {
                    lemma_take_push_contains(s.required@, i as int, x);
                    lemma_push_contains(old_required, j, x);
                }
                assert forall|x: usize| #[trigger] ignored@.contains(x)
                    <==> (s.required@.take(i + 1).contains(x) && !self.requirement.holds(pre, jobs@, x)) by {
                    lemma_take_push_contains(s.required@, i as int, x);
                    lemma_push_contains(old_ignored, j, x);
                }
            }
            i = i + 1;
        }
        proof {
            lemma_take_full(s.required@);
        }
        let mut k: usize = 0;
        while k < s.ignored.len()
            invariant
                *s == pre,
                s.routes_match_registry(),
                s.covers(jobs@.len()),
                k <= s.ignored@.len(),
                forall|x: usize| #[trigger] required@.contains(x)
                    <==> ((s.required@.contains(x) || s.ignored@.take(k as int).contains(x))
                        && self.requirement.holds(pre, jobs@, x)),
                forall|x: usize| #[trigger] ignored@.contains(x)
                    <==> ((s.required@.contains(x) || s.ignored@.take(k as int).contains(x))
                        && !self.requirement.holds(pre, jobs@, x)),
            decreases s.ignored@.len() - k,
        {
            let j = s.ignored[k];
            assert(s.occurrences(j) >= 1);
            let keep = self.requirement.is_required(s, jobs, j);
            let ghost old_required = required@;
            let ghost old_ignored = ignored@;
            if keep {
                required.push(j);
            } else {
                ignored.push(j);
            }
            proof {
                assert forall|x: usize| #[trigger] required@.contains(x)
                    <==> ((s.required@.contains(x) || s.ignored@.take(k + 1).contains(x))
                        && self.requirement.holds(pre, jobs@, x)) by {
                    lemma_take_push_contains(s.ignored@, k as int, x);
                    lemma_push_contains(old_required, j, x);
                }
                assert forall|x: usize| #[trigger] ignored@.contains(x)
                    <==> ((s.required@.contains(x) || s.ignored@.take(k + 1).contains(x))
                        && !self.requirement.holds(pre, jobs@, x)) by {
                    lemma_take_push_contains(s.ignored@, k as int, x);
                    lemma_push_contains(old_ignored, j, x);
                }
            }
            k = k + 1;
        }
        proof {
            lemma_take_full(s.ignored@);
        }
        s.required = required;
        s.ignored = ignored;
    }
}

} // verus!
