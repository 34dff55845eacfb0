//! The plain parts of the HRE problem format and their correspondence with
//! the pragmatic format.
use vstd::prelude::*;
use crate::pragmatic;
use crate::pragmatic::copy_strings;

verus! {

/// How jobs are locked to a vehicle, in HRE terms.
#[derive(Clone, Copy, Debug, PartialEq, Eq, Structural)]
pub enum RelationType {
    /// Any order.
    Tour,
    /// In order, other jobs may come in between.
    Flexible,
    /// In order, nothing in between.
    Sequence,
}

/// Locks jobs to a vehicle.
#[derive(Clone, Debug)]
pub struct Relation {
    pub type_field: RelationType,
    pub jobs: Vec<String>,
    pub vehicle_id: String,
    pub shift_index: Option<usize>,
}

/// Extra configuration, reserved.
#[derive(Clone, Copy, Debug, PartialEq, Eq, Structural)]
pub struct Config {}

pub open spec fn pragmatic_type_of(t: RelationType) -> pragmatic::RelationType {
    match t {
        RelationType::Sequence => pragmatic::RelationType::Strict,
        RelationType::Flexible => pragmatic::RelationType::Sequence,
        RelationType::Tour => pragmatic::RelationType::Any,
    }
}

pub open spec fn hre_type_of(t: pragmatic::RelationType) -> RelationType {
    match t {
        pragmatic::RelationType::Strict => RelationType::Sequence,
        pragmatic::RelationType::Sequence => RelationType::Flexible,
        pragmatic::RelationType::Any => RelationType::Tour,
    }
}

pub fn to_pragmatic_relation_type(t: RelationType) -> (r: pragmatic::RelationType)
    ensures
        r == pragmatic_type_of(t),
{
    match t {
        RelationType::Sequence => pragmatic::RelationType::Strict,
        RelationType::Flexible => pragmatic::RelationType::Sequence,
        RelationType::Tour => pragmatic::RelationType::Any,
    }
}

pub fn to_hre_relation_type(t: pragmatic::RelationType) -> (r: RelationType)
    ensures
        r == hre_type_of(t),
{
    match t {
        pragmatic::RelationType::Strict => RelationType::Sequence,
        pragmatic::RelationType::Sequence => RelationType::Flexible,
        pragmatic::RelationType::Any => RelationType::Tour,
    }
}

/// The pragmatic form of an HRE relation.
pub fn to_pragmatic_relation(r: &Relation) -> (p: pragmatic::Relation)
    ensures
        p.type_field == pragmatic_type_of(r.type_field),
        p.jobs@.len() == r.jobs@.len(),
        forall|k: int| 0 <= k < r.jobs@.len() ==> (#[trigger] p.jobs@[k])@ == r.jobs@[k]@,
        p.vehicle_id@ == r.vehicle_id@,
        p.shift_index == r.shift_index,
{
    pragmatic::Relation {
        type_field: to_pragmatic_relation_type(r.type_field),
        jobs: copy_strings(&r.jobs),
        vehicle_id: r.vehicle_id.clone(),
        shift_index: r.shift_index,
    }
}

/// The HRE form of a pragmatic relation; HRE relations carry no shift index.
pub fn to_hre_relation(r: &pragmatic::Relation) -> (h: Relation)
    ensures
        h.type_field == hre_type_of(r.type_field),
        h.jobs@.len() == r.jobs@.len(),
        forall|k: int| 0 <= k < r.jobs@.len() ==> (#[trigger] h.jobs@[k])@ == r.jobs@[k]@,
        h.vehicle_id@ == r.vehicle_id@,
        h.shift_index.is_none(),
{
    Relation {
        type_field: to_hre_relation_type(r.type_field),
        jobs: copy_strings(&r.jobs),
        vehicle_id: r.vehicle_id.clone(),
        shift_index: None,
    }
}

/// The HRE job variant a pragmatic job maps to.
#[derive(Clone, Copy, Debug, PartialEq, Eq, Structural)]
pub enum HreJobKind {
    /// At most one pickup and one delivery.
    Single,
    /// Several pickups or deliveries.
    Multi,
}

/// Why a pragmatic job has no HRE form.
#[derive(Clone, Copy, Debug, PartialEq, Eq, Structural)]
pub enum HreJobError {
    /// The job has service or replacement tasks.
    UnsupportedTasks,
    /// The job has neither pickups nor deliveries.
    NoTasks,
}

/// Decides the HRE variant of a job from its task counts.
pub fn hre_job_kind(pickups: usize, deliveries: usize, services: usize, replacements: usize) -> (r: Result<HreJobKind, HreJobError>)
    ensures
        (services > 0 || replacements > 0) ==> r == Err::<HreJobKind, HreJobError>(HreJobError::UnsupportedTasks),
        (services == 0 && replacements == 0 && pickups == 0 && deliveries == 0)
            ==> r == Err::<HreJobKind, HreJobError>(HreJobError::NoTasks),
        (services == 0 && replacements == 0 && (pickups > 0 || deliveries > 0)) ==> r == Ok::<HreJobKind, HreJobError>(
            if pickups > 1 || deliveries > 1 { HreJobKind::Multi } else { HreJobKind::Single }),
{
    if services > 0 || replacements > 0 {
        return Err(HreJobError::UnsupportedTasks);
    }
    if pickups == 0 && deliveries == 0 {
        return Err(HreJobError::NoTasks);
    }
    if pickups > 1 || deliveries > 1 {
        Ok(HreJobKind::Multi)
    } else {
        Ok(HreJobKind::Single)
    }
}

} // verus!
