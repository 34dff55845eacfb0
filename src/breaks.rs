//! Break constraint: a break is required only while its vehicle owns a route,
//! may not follow the departure directly, and is never reported unassigned.
use vstd::prelude::*;
use crate::models::{Job, JobKind, JobType};
use crate::registry::Registry;
use crate::solution::{SolutionContext, RouteContext, in_unassigned, lemma_in_unassigned_take_push, lemma_in_unassigned_push};
use crate::constraints::{ActivityContext, ActivityConstraintViolation};
use crate::conditional::{JobRequirement, reclassified};
use crate::lemmas::{lemma_push_contains, lemma_take_full};

verus! {

/// The break module: its hard activity rule and its solution callbacks.
#[derive(Clone, Copy, Debug, PartialEq, Eq, Structural)]
pub struct BreakModule {
    pub code: i32,
}

/// The vehicle of route `r`.
pub open spec fn route_vehicle(s: SolutionContext, r: int) -> u64 {
    s.registry.actors@[s.routes@[r].actor as int].vehicle_id
}

/// Whether vehicle `v` owns a committed route.
pub open spec fn vehicle_routed(s: SolutionContext, v: u64) -> bool {
    exists|r: int| 0 <= r < s.routes@.len() && #[trigger] route_vehicle(s, r) == v
}

/// A job other than a break is always required; a break only while some job is
/// required and its vehicle owns a route.
pub open spec fn break_is_required(s: SolutionContext, jobs: Seq<Job>, j: usize) -> bool {
    !jobs[j as int].is_break_spec() || match jobs[j as int].dimens.vehicle_id {
        Some(v) => s.required@.len() > 0 && vehicle_routed(s, v),
        None => false,
    }
}

/// The hard activity rule: no break right after departure.
pub open spec fn break_activity(code: i32, jobs: Seq<Job>, a: ActivityContext) -> Option<ActivityConstraintViolation> {
    match a.target {
        Some(t) => if jobs[t as int].is_break_spec() && a.prev.is_none() {
            Some(ActivityConstraintViolation { code, stopped: false })
        } else {
            None
        },
        None => None,
    }
}

/// Whether `post` is `pre` with every unassigned break moved to `ignored`.
pub open spec fn breaks_demoted(pre: SolutionContext, post: SolutionContext, jobs: Seq<Job>) -> bool {
    &&& forall|x: usize| #[trigger] post.ignored@.contains(x)
        <==> (pre.ignored@.contains(x) || (in_unassigned(pre.unassigned@, x) && jobs[x as int].is_break_spec()))
    &&& forall|x: usize| #[trigger] in_unassigned(post.unassigned@, x)
        <==> (in_unassigned(pre.unassigned@, x) && !jobs[x as int].is_break_spec())
    &&& forall|e: (usize, i32)| #[trigger] post.unassigned@.contains(e)
        <==> (pre.unassigned@.contains(e) && !jobs[e.0 as int].is_break_spec())
    &&& post.required == pre.required
    &&& post.locked == pre.locked
    &&& post.routes == pre.routes
    &&& post.registry == pre.registry
    &&& post.max_cost == pre.max_cost
}

/// The requirement that decides when a break is required.
#[derive(Clone, Copy, Debug, PartialEq, Eq, Structural)]
pub struct BreakRequirement {}

impl JobRequirement for BreakRequirement {
    open spec fn holds(&self, s: SolutionContext, jobs: Seq<Job>, j: usize) -> bool {
        break_is_required(s, jobs, j)
    }

    fn is_required(&self, s: &SolutionContext, jobs: &Vec<Job>, j: usize) -> (r: bool) {
        is_required_job(s, jobs, j)
    }
}

/// Whether the job is a break.
pub fn is_break(job: &Job) -> (r: bool)
    ensures
        r == job.is_break_spec(),
{
    job.kind == JobKind::Single && job.dimens.job_type == JobType::Break
}

/// The vehicle of a route.
pub fn get_vehicle_id_from_ctx(route: &RouteContext, registry: &Registry) -> (v: u64)
    requires
        route.actor < registry.actors@.len(),
    ensures
        v == registry.actors@[route.actor as int].vehicle_id,
{
    registry.actors[route.actor].vehicle_id
}

/// The vehicle a break is bound to.
pub fn get_vehicle_id_from_break(job: &Job) -> (v: Option<u64>)
    ensures
        v == job.dimens.vehicle_id,
{
    job.dimens.vehicle_id
}

fn is_required_job(s: &SolutionContext, jobs: &Vec<Job>, j: usize) -> (r: bool)
    requires
        j < jobs@.len(),
        s.routes_match_registry(),
    ensures
        r == break_is_required(*s, jobs@, j),
{
    let job = &jobs[j];
    if !is_break(job) {
        return true;
    }
    match get_vehicle_id_from_break(job) {
        Some(v) => {
            if s.required.len() == 0 {
                return false;
            }
            let mut r: usize = 0;
            while r < s.routes.len()
                invariant
                    s.routes_match_registry(),
                    s.required@.len() > 0,
                    j < jobs@.len(),
                    jobs@[j as int].is_break_spec(),
                    jobs@[j as int].dimens.vehicle_id == Some(v),
                    r <= s.routes@.len(),
                    forall|q: int| 0 <= q < r ==> #[trigger] route_vehicle(*s, q) != v,
                decreases s.routes@.len() - r,
            {
                assert(s.routes@[r as int].actor < s.registry.actors@.len());
                if get_vehicle_id_from_ctx(&s.routes[r], &s.registry) == v {
                    assert(route_vehicle(*s, r as int) == v);
                    return true;
                }
                r = r + 1;
            }
            false
        },
        None => false,
    }
}

/// Moves every unassigned break to `ignored`: missing a break is not a
/// placement failure.
pub fn demote_unassigned_breaks(s: &mut SolutionContext, jobs: &Vec<Job>)
    requires
        old(s).covers(jobs@.len()),
    ensures
        breaks_demoted(*old(s), *final(s), jobs@),
{
    let ghost pre = *s;
    let mut kept: Vec<(usize, i32)> = Vec::new();
    let mut i: usize = 0;
    while i < s.unassigned.len()
        invariant
            s.unassigned == pre.unassigned,
            s.required == pre.required,
            s.locked == pre.locked,
            s.routes == pre.routes,
            s.registry == pre.registry,
            s.max_cost == pre.max_cost,
            pre.covers(jobs@.len()),
            i <= s.unassigned@.len(),
            forall|x: usize| #[trigger] s.ignored@.contains(x)
                <==> (pre.ignored@.contains(x) || (in_unassigned(pre.unassigned@.take(i as int), x)
                    && jobs[x as int].is_break_spec())),
            forall|x: usize| #[trigger] in_unassigned(kept@, x)
                <==> (in_unassigned(pre.unassigned@.take(i as int), x) && !jobs[x as int].is_break_spec()),
            forall|e: (usize, i32)| #[trigger] kept@.contains(e)
                <==> (pre.unassigned@.take(i as int).contains(e) && !jobs[e.0 as int].is_break_spec()),
        decreases s.unassigned@.len() - i,
    {
        let e = s.unassigned[i];
        assert(in_unassigned(pre.unassigned@, e.0));
        assert(pre.occurrences(e.0) >= 1);
        let ghost old_ignored = s.ignored@;
        let ghost old_kept = kept@;
        if is_break(&jobs[e.0]) {
            s.ignored.push(e.0);
        } else {
            kept.push(e);
        }
        proof {
            assert forall|x: usize| #[trigger] s.ignored@.contains(x)
                <==> (pre.ignored@.contains(x) || (in_unassigned(pre.unassigned@.take(i + 1), x)
                    && jobs[x as int].is_break_spec())) by {
                lemma_in_unassigned_take_push(pre.unassigned@, i as int, x);
                lemma_push_contains(old_ignored, e.0, x);
            }
            assert forall|x: usize| #[trigger] in_unassigned(kept@, x)
                <==> (in_unassigned(pre.unassigned@.take(i + 1), x) && !jobs[x as int].is_break_spec()) by {
                lemma_in_unassigned_take_push(pre.unassigned@, i as int, x);
                lemma_in_unassigned_push(old_kept, e, x);
            }
            assert forall|e2: (usize, i32)| #[trigger] kept@.contains(e2)
                <==> (pre.unassigned@.take(i + 1).contains(e2) && !jobs[e2.0 as int].is_break_spec()) by {
                crate::lemmas::lemma_take_push_contains(pre.unassigned@, i as int, e2);
                lemma_push_contains(old_kept, e, e2);
            }
        }
        i = i + 1;
    }
    proof {
        lemma_take_full(pre.unassigned@);
    }
    s.unassigned = kept;
}

/// Whether `post` is what the break module's solution callback makes of `pre`:
/// `required` and `ignored` repartitioned first, then the unassigned breaks
/// demoted to `ignored`.
pub open spec fn break_state_accepted(pre: SolutionContext, post: SolutionContext, jobs: Seq<Job>) -> bool {
    exists|mid: SolutionContext| #[trigger] reclassified(BreakRequirement {}, pre, mid, jobs) && breaks_demoted(mid, post, jobs)
}

impl BreakModule {
    pub fn new(code: i32) -> (r: BreakModule)
        ensures
            r.code == code,
    {
        BreakModule { code }
    }

    pub fn evaluate_activity(&self, jobs: &Vec<Job>, a: &ActivityContext) -> (r: Option<ActivityConstraintViolation>)
        requires
            a.jobs_in(jobs@.len()),
        ensures
            r == break_activity(self.code, jobs@, *a),
    {
        match a.target {
            Some(t) => {
                if is_break(&jobs[t]) && a.prev.is_none() {
                    Some(ActivityConstraintViolation { code: self.code, stopped: false })
                } else {
                    None
                }
            },
            None => None,
        }
    }
}

} // verus!
