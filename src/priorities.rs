//! Priority constraint: important jobs are served first, and less important
//! jobs pay a route-level penalty.
use vstd::prelude::*;
use crate::models::Job;
use crate::constraints::{ActivityContext, ActivityConstraintViolation};

verus! {

/// Penalty floor of the soft route constraint.
pub const MIN_PRIORITY_PENALTY: u64 = 1_000_000_000;

/// Adds a penalty to jobs with priority above 1 and keeps priorities
/// non-decreasing along a tour.
#[derive(Clone, Copy, Debug, PartialEq, Eq, Structural)]
pub struct PriorityModule {
    pub code: i32,
}

/// The priority of a job, 1 when absent.
pub open spec fn priority_of(job: Job) -> int {
    match job.dimens.priority {
        Some(p) => p as int,
        None => 1,
    }
}

/// Violation when `first` is less important than `second`.
pub open spec fn priority_check(code: i32, first: Job, second: Job, stopped: bool) -> Option<ActivityConstraintViolation> {
    if priority_of(first) <= priority_of(second) {
        None
    } else {
        Some(ActivityConstraintViolation { code, stopped })
    }
}

/// The hard activity rule over a triple.
pub open spec fn priority_activity(code: i32, jobs: Seq<Job>, a: ActivityContext) -> Option<ActivityConstraintViolation> {
    match (a.prev, a.target, a.next) {
        (_, None, _) => None,
        (None, Some(_), None) => None,
        (Some(p), Some(t), _) => priority_check(code, jobs[p as int], jobs[t as int], false),
        (None, Some(t), Some(x)) => priority_check(code, jobs[t as int], jobs[x as int], true),
    }
}

/// `max(2 * max_cost, 10^9)`.
pub open spec fn priority_penalty(max_cost: u64) -> int {
    if 2 * max_cost >= MIN_PRIORITY_PENALTY {
        2 * max_cost
    } else {
        MIN_PRIORITY_PENALTY as int
    }
}

/// The soft route cost of a job: `(priority - 1) * penalty`, 0 without priority.
pub open spec fn priority_estimate(job: Job, max_cost: u64) -> int {
    match job.dimens.priority {
        Some(p) => (p - 1) * priority_penalty(max_cost),
        None => 0,
    }
}

/// The priority set on a job, if any.
pub fn get_priority(job: &Job) -> (r: Option<i32>)
    ensures
        r == job.dimens.priority,
{
    job.dimens.priority
}

impl PriorityModule {
    pub fn new(code: i32) -> (r: PriorityModule)
        ensures
            r.code == code,
    {
        PriorityModule { code }
    }

    pub fn check_priorities(&self, first: &Job, second: &Job, stopped: bool) -> (r: Option<ActivityConstraintViolation>)
        ensures
            r == priority_check(self.code, *first, *second, stopped),
    {
        let a: i32 = match get_priority(first) {
            Some(p) => p,
            None => 1,
        };
        let b: i32 = match get_priority(second) {
            Some(p) => p,
            None => 1,
        };
        if a <= b {
            None
        } else {
            Some(ActivityConstraintViolation { code: self.code, stopped })
        }
    }

    pub fn evaluate_activity(&self, jobs: &Vec<Job>, a: &ActivityContext) -> (r: Option<ActivityConstraintViolation>)
        requires
            a.jobs_in(jobs@.len()),
        ensures
            r == priority_activity(self.code, jobs@, *a),
    {
        match (a.prev, a.target, a.next) {
            (_, None, _) => None,
            (None, Some(_), None) => None,
            (Some(p), Some(t), _) => self.check_priorities(&jobs[p], &jobs[t], false),
            (None, Some(t), Some(x)) => self.check_priorities(&jobs[t], &jobs[x], true),
        }
    }

    pub fn estimate_job(&self, job: &Job, max_cost: u64) -> (r: i128)
        ensures
            r == priority_estimate(*job, max_cost),
            -0x4_0000_0000_0000_0000_0000_0000 <= r <= 0x4_0000_0000_0000_0000_0000_0000,
    {
        match get_priority(job) {
            Some(p) => {
                let doubled: u128 = 2 * (max_cost as u128);
                let penalty: u128 = if doubled >= MIN_PRIORITY_PENALTY as u128 {
                    doubled
                } else {
                    MIN_PRIORITY_PENALTY as u128
                };
                let factor: i128 = p as i128 - 1;
                assert(-0x1_0000_0000 <= factor <= 0x1_0000_0000);
                assert(penalty <= 0x4_0000_0000_0000_0000);
                assert(-0x4_0000_0000_0000_0000_0000_0000 <= factor * (penalty as i128) <= 0x4_0000_0000_0000_0000_0000_0000)
                    by (nonlinear_arith)
                    requires
                        -0x1_0000_0000 <= factor <= 0x1_0000_0000,
                        0 <= penalty <= 0x4_0000_0000_0000_0000,
                ;
                factor * (penalty as i128)
            },
            None => 0,
        }
    }
}

} // verus!
