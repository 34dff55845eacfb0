//! Route-level hard constraints: vehicle capacity and shift time.
use vstd::prelude::*;
use crate::models::{Activity, Actor, Job, Place, TimeWindow};
use crate::solution::RouteContext;

verus! {

/// Total demand of the activities, saturated at `u64::MAX`.
pub open spec fn activities_load(s: Seq<Activity>) -> u64
    decreases s.len(),
{
    if s.len() == 0 {
        0
    } else {
        let prev = activities_load(s.drop_last());
        if prev + s.last().demand > u64::MAX {
            u64::MAX
        } else {
            (prev + s.last().demand) as u64
        }
    }
}

/// Recomputes the load cache of a route from its tour.
pub fn route_load(route: &RouteContext) -> (load: u64)
    ensures
        load == activities_load(route.tour.activities@),
{
    let acts = &route.tour.activities;
    let mut load: u64 = 0;
    let mut i: usize = 0;
    while i < acts.len()
        invariant
            i <= acts@.len(),
            load == activities_load(acts@.take(i as int)),
        decreases acts@.len() - i,
    {
        assert(acts@.take(i + 1).drop_last() == acts@.take(i as int));
        load = load.saturating_add(acts[i].demand);
        i = i + 1;
    }
    assert(acts@.take(acts@.len() as int) == acts@);
    load
}

/// Rejects a job whose demand does not fit in what the vehicle has left.
#[derive(Clone, Copy, Debug, PartialEq, Eq, Structural)]
pub struct CapacityModule {
    pub code: i32,
}

pub open spec fn capacity_violation(code: i32, actor: Actor, load: u64, job: Job) -> Option<i32> {
    if load + job.demand > actor.capacity {
        Some(code)
    } else {
        None
    }
}

impl CapacityModule {
    pub fn new(code: i32) -> (r: CapacityModule)
        ensures
            r.code == code,
    {
        CapacityModule { code }
    }

    pub fn evaluate_route(&self, actor: &Actor, route: &RouteContext, job: &Job) -> (r: Option<i32>)
        ensures
            r == capacity_violation(self.code, *actor, route.load, *job),
    {
        if route.load as u128 + job.demand as u128 > actor.capacity as u128 {
            Some(self.code)
        } else {
            None
        }
    }
}

/// Whether some time window of the place meets the shift.
pub open spec fn place_meets_shift(p: Place, shift: TimeWindow) -> bool {
    exists|k: int| 0 <= k < p.times@.len() && (#[trigger] p.times@[k]).intersects_spec(shift)
}

/// Whether some place of the job can be served within the shift.
pub open spec fn job_meets_shift(job: Job, shift: TimeWindow) -> bool {
    exists|k: int| 0 <= k < job.places@.len() && place_meets_shift(#[trigger] job.places@[k], shift)
}

/// Rejects a job none of whose time windows meets the actor's shift.
#[derive(Clone, Copy, Debug, PartialEq, Eq, Structural)]
pub struct TimeModule {
    pub code: i32,
}

pub open spec fn time_violation(code: i32, actor: Actor, job: Job) -> Option<i32> {
    if job_meets_shift(job, actor.shift) {
        None
    } else {
        Some(code)
    }
}

fn place_fits(p: &Place, shift: &TimeWindow) -> (r: bool)
    ensures
        r == place_meets_shift(*p, *shift),
{
    let mut k: usize = 0;
    while k < p.times.len()
        invariant
            k <= p.times@.len(),
            forall|q: int| 0 <= q < k ==> !(#[trigger] p.times@[q]).intersects_spec(*shift),
        decreases p.times@.len() - k,
    {
        if p.times[k].intersects(shift) {
            return true;
        }
        k = k + 1;
    }
    false
}

impl TimeModule {
    pub fn new(code: i32) -> (r: TimeModule)
        ensures
            r.code == code,
    {
        TimeModule { code }
    }

    pub fn evaluate_route(&self, actor: &Actor, job: &Job) -> (r: Option<i32>)
        ensures
            r == time_violation(self.code, *actor, *job),
    {
        let mut k: usize = 0;
        while k < job.places.len()
            invariant
                k <= job.places@.len(),
                forall|q: int| 0 <= q < k ==> !place_meets_shift(#[trigger] job.places@[q], actor.shift),
            decreases job.places@.len() - k,
        {
            if place_fits(&job.places[k], &actor.shift) {
                return None;
            }
            k = k + 1;
        }
        Some(self.code)
    }
}

} // verus!
