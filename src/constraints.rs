//! The constraint pipeline: an ordered composition of constraint modules with
//! hard/soft route and activity checks and state callbacks.
use vstd::prelude::*;

verus! {

/// Violation code of the time constraint.
pub const TIME_CONSTRAINT_CODE: i32 = 1;
/// Violation code of the distance limit.
pub const DISTANCE_LIMIT_CONSTRAINT_CODE: i32 = 2;
/// Violation code of the duration limit.
pub const DURATION_LIMIT_CONSTRAINT_CODE: i32 = 3;
/// Violation code of the capacity constraint.
pub const CAPACITY_CONSTRAINT_CODE: i32 = 4;
/// Violation code of the break constraint.
pub const BREAK_CONSTRAINT_CODE: i32 = 5;
/// Violation code of the skills constraint.
pub const SKILLS_CONSTRAINT_CODE: i32 = 6;
/// Violation code of the locking constraint.
pub const LOCKING_CONSTRAINT_CODE: i32 = 7;
/// Violation code of the reachability constraint.
pub const REACHABLE_CONSTRAINT_CODE: i32 = 8;
/// Violation code of the priority constraint.
pub const PRIORITY_CONSTRAINT_CODE: i32 = 9;
/// Violation code of the area constraint.
pub const AREA_CONSTRAINT_CODE: i32 = 10;

/// The jobs around a candidate position: the activity before it, the one being
/// placed, and the one after it (if any). Sentinels carry no job.
#[derive(Clone, Copy, Debug, PartialEq, Eq, Structural)]
pub struct ActivityContext {
    pub prev: Option<usize>,
    pub target: Option<usize>,
    pub next: Option<usize>,
}

impl ActivityContext {
    pub open spec fn jobs_in(&self, n: nat) -> bool {
        &&& (self.prev matches Some(p) ==> p < n)
        &&& (self.target matches Some(t) ==> t < n)
        &&& (self.next matches Some(x) ==> x < n)
    }
}

/// A hard activity violation. `stopped` means that no later position in the
/// same route can succeed either.
#[derive(Clone, Copy, Debug, PartialEq, Eq, Structural)]
pub struct ActivityConstraintViolation {
    pub code: i32,
    pub stopped: bool,
}

} // verus!
