//! Problem and tour model: jobs, places, actors and tours bracketed by sentinels.
use vstd::prelude::*;

verus! {

/// A closed time interval `[start, end]`.
#[derive(Clone, Copy, Debug, PartialEq, Eq, Structural)]
pub struct TimeWindow {
    pub start: u64,
    pub end: u64,
}

impl TimeWindow {
    /// Whether the two windows share at least one instant.
    pub open spec fn intersects_spec(self, other: TimeWindow) -> bool {
        self.start <= other.end && other.start <= self.end
    }

    pub fn intersects(&self, other: &TimeWindow) -> (r: bool)
        ensures
            r == self.intersects_spec(*other),
    {
        self.start <= other.end && other.start <= self.end
    }
}

/// A place where a task can be served.
#[derive(Clone, Debug)]
pub struct Place {
    /// Index of the location in the routing matrix.
    pub location: usize,
    /// Service duration.
    pub duration: u32,
    /// Acceptable time windows (non-empty in a well-formed job).
    pub times: Vec<TimeWindow>,
}

/// How the places of a job are read.
#[derive(Clone, Copy, Debug, PartialEq, Eq, Structural)]
pub enum JobKind {
    /// One task; each place is an alternative.
    Single,
    /// Ordered sub-tasks, pickups before deliveries; every place is visited.
    Multi,
}

/// The `type` marker of a job.
#[derive(Clone, Copy, Debug, PartialEq, Eq, Structural)]
pub enum JobType {
    /// An ordinary customer job.
    Service,
    /// A vehicle break (`type = "break"`).
    Break,
}

/// The well-known dimensions of a job, in compact form.
#[derive(Clone, Copy, Debug, PartialEq, Eq, Structural)]
pub struct Dimensions {
    /// Identity of the job.
    pub id: u64,
    /// Priority: larger is less important; absent means 1.
    pub priority: Option<i32>,
    /// The type marker.
    pub job_type: JobType,
    /// The vehicle a break is bound to.
    pub vehicle_id: Option<u64>,
}

/// A unit of work.
#[derive(Clone, Debug)]
pub struct Job {
    pub kind: JobKind,
    pub places: Vec<Place>,
    /// Capacity demand of the job.
    pub demand: u64,
    pub dimens: Dimensions,
}

/// Upper bound on the number of places of one job.
pub const MAX_PLACES: usize = 0xffff_ffff;

impl Job {
    pub open spec fn wf(&self) -> bool {
        &&& self.places@.len() > 0
        &&& self.places@.len() <= MAX_PLACES
    }

    /// A break is a single job of type `break` bound to a vehicle.
    pub open spec fn is_break_spec(&self) -> bool {
        self.kind == JobKind::Single && self.dimens.job_type == JobType::Break
    }
}

/// Costs of an actor.
#[derive(Clone, Copy, Debug, PartialEq, Eq, Structural)]
pub struct Costs {
    /// Paid once when the actor's route is first used.
    pub fixed: u32,
    /// Paid per distance unit.
    pub per_distance: u32,
    /// Paid per unit of service time.
    pub per_service_time: u32,
}

/// The driver, vehicle and shift that execute one tour.
#[derive(Clone, Copy, Debug, PartialEq, Eq, Structural)]
pub struct Actor {
    /// Identity of the vehicle.
    pub vehicle_id: u64,
    pub costs: Costs,
    /// Capacity of the vehicle.
    pub capacity: u64,
    /// The shift time window.
    pub shift: TimeWindow,
    /// Location where the tour starts.
    pub start_location: usize,
    /// Location where the tour ends, if the shift has an end.
    pub end_location: Option<usize>,
}

/// One stop of a tour. Sentinels carry no job.
#[derive(Clone, Copy, Debug, PartialEq, Eq, Structural)]
pub struct Activity {
    /// Index of the job in the problem, or `None` for a sentinel.
    pub job: Option<usize>,
    pub location: usize,
    pub duration: u64,
    /// Capacity demand carried by this activity.
    pub demand: u64,
}

/// An ordered sequence of activities bracketed by a start sentinel and an
/// optional end sentinel.
#[derive(Clone, Debug)]
pub struct Tour {
    pub activities: Vec<Activity>,
    pub has_end: bool,
}

impl Tour {
    /// Number of job activities (those between the sentinels).
    pub open spec fn job_count(&self) -> int {
        self.activities@.len() - 1 - (if self.has_end { 1int } else { 0 })
    }

    pub open spec fn is_job_position(&self, p: int) -> bool {
        1 <= p && p <= self.job_count()
    }

    /// Start at position 0, end (if any) last, jobs exactly in between.
    pub open spec fn wf(&self) -> bool {
        &&& self.job_count() >= 0
        &&& self.activities@[0].job.is_none()
        &&& self.has_end ==> self.activities@.last().job.is_none()
        &&& forall|p: int| #[trigger] self.is_job_position(p) ==> self.activities@[p].job.is_some()
    }

    /// Whether some activity of the tour serves job `j`.
    pub open spec fn serves(&self, j: usize) -> bool {
        exists|p: int| 0 <= p < self.activities@.len() && #[trigger] self.activities@[p].job == Some(j)
    }

    /// Well-formedness depends on the activities and the end flag alone.
    pub proof fn lemma_wf_same(a: Tour, b: Tour)
        requires
            a.wf(),
            a.activities@ == b.activities@,
            a.has_end == b.has_end,
        ensures
            b.wf(),
    {
        assert forall|p: int| #[trigger] b.is_job_position(p) implies b.activities@[p].job.is_some() by {
            assert(a.is_job_position(p));
        }
    }

    /// An empty tour for `actor`.
    pub fn new(actor: &Actor) -> (t: Tour)
        ensures
            t.wf(),
            t.job_count() == 0,
            t.has_end == actor.end_location.is_some(),
            forall|j: usize| !t.serves(j),
            t.activities@ == crate::solution::fresh_activities(*actor),
    {
        let mut activities: Vec<Activity> = Vec::new();
        activities.push(Activity { job: None, location: actor.start_location, duration: 0, demand: 0 });
        let has_end = match actor.end_location {
            Some(l) => {
                activities.push(Activity { job: None, location: l, duration: 0, demand: 0 });
                true
            },
            None => false,
        };
        assert(activities@ =~= crate::solution::fresh_activities(*actor));
        Tour { activities, has_end }
    }

    pub fn job_activity_count(&self) -> (n: usize)
        requires
            self.wf(),
        ensures
            n == self.job_count(),
    {
        if self.has_end {
            self.activities.len() - 2
        } else {
            self.activities.len() - 1
        }
    }

    /// Inserts `a` at position `index` (after the start sentinel, at most just
    /// before the end sentinel).
    pub fn insert_at(&mut self, a: Activity, index: usize)
        requires
            old(self).wf(),
            1 <= index <= old(self).job_count() + 1,
            a.job.is_some(),
        ensures
            final(self).wf(),
            final(self).has_end == old(self).has_end,
            final(self).activities@ == old(self).activities@.insert(index as int, a),
            final(self).job_count() == old(self).job_count() + 1,
            forall|j: usize| #[trigger] final(self).serves(j) <==> (old(self).serves(j) || a.job == Some(j)),
    {
        let ghost pre = self.activities@;
        self.activities.insert(index, a);
        let ghost post = self.activities@;
        assert forall|p: int| #[trigger] self.is_job_position(p) implies self.activities@[p].job.is_some() by {
            if p < index {
                assert(old(self).is_job_position(p));
            } else if p > index {
                assert(old(self).is_job_position(p - 1));
            }
        }
        assert forall|j: usize| #[trigger] self.serves(j) <==> (old(self).serves(j) || a.job == Some(j)) by {
            if self.serves(j) {
                let p = choose|p: int| 0 <= p < post.len() && #[trigger] post[p].job == Some(j);
                if p < index {
                    assert(pre[p].job == Some(j));
                } else if p > index {
                    assert(pre[p - 1].job == Some(j));
                }
            }
            if old(self).serves(j) {
                let p = choose|p: int| 0 <= p < pre.len() && #[trigger] pre[p].job == Some(j);
                if p < index {
                    assert(post[p].job == Some(j));
                } else {
                    assert(post[p + 1].job == Some(j));
                }
            }
            if a.job == Some(j) {
                assert(post[index as int].job == Some(j));
            }
        }
    }
}

} // verus!
