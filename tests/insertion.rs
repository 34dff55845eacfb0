use vrp_engine::random::DefaultRandom;
use vrp_engine::breaks::BreakModule;
use vrp_engine::capacity::{CapacityModule, TimeModule};
use vrp_engine::constraints::{BREAK_CONSTRAINT_CODE, CAPACITY_CONSTRAINT_CODE, PRIORITY_CONSTRAINT_CODE, TIME_CONSTRAINT_CODE};
use vrp_engine::evaluator::InsertionPosition;
use vrp_engine::heuristic::{AllJobSelector, InsertionHeuristic, Quota};
use vrp_engine::insertions::{AllRouteSelector, BestResultSelector, PairJobMapReducer};
use vrp_engine::models::{Actor, Costs, Dimensions, Job, JobKind, JobType, Place, TimeWindow};
use vrp_engine::pipeline::{ConstraintModule, ConstraintPipeline};
use vrp_engine::priorities::PriorityModule;
use vrp_engine::problem::{InsertionContext, Problem};
use vrp_engine::registry::Registry;
use vrp_engine::solution::SolutionContext;

struct NeverReached;

impl Quota for NeverReached {
    fn is_reached(&self) -> bool {
        false
    }
}

fn job(id: u64, location: usize) -> Job {
    Job {
        kind: JobKind::Single,
        places: vec![Place { location, duration: 0, times: vec![TimeWindow { start: 0, end: 1000 }] }],
        demand: 1,
        dimens: Dimensions { id, priority: None, job_type: JobType::Service, vehicle_id: None },
    }
}

fn actor(vehicle_id: u64) -> Actor {
    Actor {
        vehicle_id,
        costs: Costs { fixed: 100, per_distance: 1, per_service_time: 0 },
        capacity: 10,
        shift: TimeWindow { start: 0, end: 1000 },
        start_location: 0,
        end_location: Some(0),
    }
}

fn line_matrix(size: usize) -> Vec<u32> {
    let mut d = Vec::new();
    for a in 0..size {
        for b in 0..size {
            d.push((a as i64 - b as i64).unsigned_abs() as u32);
        }
    }
    d
}

fn context(jobs: Vec<Job>, actors: Vec<Actor>, modules: Vec<ConstraintModule>) -> InsertionContext {
    let n = jobs.len();
    let problem = Problem { jobs, size: 6, distances: line_matrix(6), pipeline: ConstraintPipeline::new(modules) };
    let solution = SolutionContext::new(n, Registry::new(actors));
    InsertionContext { problem, solution, random: DefaultRandom::new() }
}

fn default_modules() -> Vec<ConstraintModule> {
    vec![
        ConstraintModule::Time(TimeModule::new(TIME_CONSTRAINT_CODE)),
        ConstraintModule::Capacity(CapacityModule::new(CAPACITY_CONSTRAINT_CODE)),
        ConstraintModule::Break(BreakModule::new(BREAK_CONSTRAINT_CODE)),
        ConstraintModule::Priority(PriorityModule::new(PRIORITY_CONSTRAINT_CODE)),
    ]
}

fn run(ctx: InsertionContext) -> InsertionContext {
    let reducer = PairJobMapReducer::new(AllRouteSelector::default(), BestResultSelector::default());
    InsertionHeuristic::default().process(&AllJobSelector::default(), &reducer, ctx, None::<&NeverReached>)
}

#[test]
fn one_job_one_vehicle_is_committed() {
    let ctx = run(context(vec![job(1, 2)], vec![actor(1)], default_modules()));
    let s = &ctx.solution;
    assert!(s.required.is_empty());
    assert!(s.unassigned.is_empty());
    assert_eq!(s.routes.len(), 1);
    let acts = &s.routes[0].tour.activities;
    assert_eq!(acts.len(), 3);
    assert_eq!(acts[0].job, None);
    assert_eq!(acts[1].job, Some(0));
    assert_eq!(acts[2].job, None);
    assert!(s.registry.used[0]);
}

struct StopAfter {
    calls: std::cell::Cell<usize>,
    limit: usize,
}

impl Quota for StopAfter {
    fn is_reached(&self) -> bool {
        let c = self.calls.get();
        self.calls.set(c + 1);
        c >= self.limit
    }
}

fn with_priority(mut j: Job, p: i32) -> Job {
    j.dimens.priority = Some(p);
    j
}

fn break_job(id: u64, vehicle_id: u64, window: TimeWindow) -> Job {
    Job {
        kind: JobKind::Single,
        places: vec![Place { location: 1, duration: 0, times: vec![window] }],
        demand: 0,
        dimens: Dimensions { id, priority: None, job_type: JobType::Break, vehicle_id: Some(vehicle_id) },
    }
}

fn route_jobs(ctx: &InsertionContext, r: usize) -> Vec<usize> {
    ctx.solution.routes[r].tour.activities.iter().filter_map(|a| a.job).collect()
}

fn is_partition(ctx: &InsertionContext) -> bool {
    let s = &ctx.solution;
    for j in 0..ctx.problem.jobs.len() {
        let mut count = 0;
        if s.required.contains(&j) {
            count += 1;
        }
        if s.ignored.contains(&j) {
            count += 1;
        }
        if s.unassigned.iter().any(|(x, _)| *x == j) {
            count += 1;
        }
        if s.locked.contains(&j) {
            count += 1;
        }
        if s.routes.iter().any(|r| r.tour.activities.iter().any(|a| a.job == Some(j))) {
            count += 1;
        }
        if count != 1 {
            return false;
        }
    }
    true
}

#[test]
fn priorities_keep_important_job_first() {
    let jobs = vec![with_priority(job(1, 4), 2), with_priority(job(2, 2), 1)];
    let ctx = run(context(jobs, vec![actor(1)], default_modules()));
    assert!(ctx.solution.required.is_empty());
    let routed = route_jobs(&ctx, 0);
    assert_eq!(routed[0], 1);
    if let Some(p) = routed.iter().position(|j| *j == 0) {
        assert!(p > 0);
    } else {
        assert_eq!(ctx.solution.unassigned, vec![(0, PRIORITY_CONSTRAINT_CODE)]);
    }
}

#[test]
fn break_of_unrouted_vehicle_is_ignored() {
    let jobs = vec![job(1, 2), break_job(2, 2, TimeWindow { start: 0, end: 1000 })];
    let ctx = run(context(jobs, vec![actor(1)], default_modules()));
    assert!(ctx.solution.ignored.contains(&1));
    assert!(!ctx.solution.unassigned.iter().any(|(j, _)| *j == 1));
    assert!(!route_jobs(&ctx, 0).contains(&1));
    assert_eq!(route_jobs(&ctx, 0), vec![0]);
}

#[test]
fn break_outside_shift_ends_ignored() {
    let jobs = vec![job(1, 2), job(2, 3), break_job(3, 1, TimeWindow { start: 5000, end: 6000 })];
    let ctx = run(context(jobs, vec![actor(1)], default_modules()));
    let s = &ctx.solution;
    assert!(s.ignored.contains(&2));
    assert!(s.unassigned.is_empty());
    let mut routed = route_jobs(&ctx, 0);
    routed.sort();
    assert_eq!(routed, vec![0, 1]);
    assert!(is_partition(&ctx));
}

#[test]
fn break_within_shift_is_placed_after_a_job() {
    let jobs = vec![job(1, 2), job(2, 3), break_job(3, 1, TimeWindow { start: 0, end: 1000 })];
    let ctx = run(context(jobs, vec![actor(1)], default_modules()));
    let routed = route_jobs(&ctx, 0);
    assert!(routed.contains(&2));
    assert_ne!(routed[0], 2);
}

#[test]
fn quota_moves_the_rest_to_unassigned() {
    let jobs = vec![job(1, 1), job(2, 2), job(3, 3)];
    let quota = StopAfter { calls: std::cell::Cell::new(0), limit: 1 };
    let reducer = PairJobMapReducer::new(AllRouteSelector::default(), BestResultSelector::default());
    let ctx = InsertionHeuristic::default().process(
        &AllJobSelector::default(),
        &reducer,
        context(jobs, vec![actor(1)], default_modules()),
        Some(&quota),
    );
    let s = &ctx.solution;
    assert!(s.required.is_empty());
    assert_eq!(route_jobs(&ctx, 0).len(), 1);
    assert_eq!(s.unassigned.len(), 2);
    assert!(s.unassigned.iter().all(|(_, code)| *code == 0));
    assert!(is_partition(&ctx));
}

#[test]
fn capacity_violation_is_recorded() {
    let mut big = job(1, 2);
    big.demand = 50;
    let ctx = run(context(vec![big, job(2, 3)], vec![actor(1)], default_modules()));
    let s = &ctx.solution;
    assert_eq!(s.unassigned, vec![(0, CAPACITY_CONSTRAINT_CODE)]);
    assert_eq!(route_jobs(&ctx, 0), vec![1]);
}

#[test]
fn time_violation_is_recorded() {
    let mut late = job(1, 2);
    late.places[0].times = vec![TimeWindow { start: 2000, end: 3000 }];
    let ctx = run(context(vec![late], vec![actor(1)], default_modules()));
    assert_eq!(ctx.solution.unassigned, vec![(0, TIME_CONSTRAINT_CODE)]);
    assert!(ctx.solution.routes.is_empty());
}

#[test]
fn run_keeps_partition_and_registry() {
    let jobs = vec![job(1, 1), job(2, 5), job(3, 3), with_priority(job(4, 2), 3)];
    let ctx = run(context(jobs, vec![actor(1), actor(2)], default_modules()));
    assert!(is_partition(&ctx));
    assert!(ctx.solution.required.is_empty());
    for r in &ctx.solution.routes {
        let acts = &r.tour.activities;
        assert_eq!(acts[0].job, None);
        assert_eq!(acts[acts.len() - 1].job, None);
        assert!(ctx.solution.registry.used[r.actor]);
        assert_eq!(ctx.solution.routes.iter().filter(|o| o.actor == r.actor).count(), 1);
    }
    let used = ctx.solution.registry.used.iter().filter(|u| **u).count();
    assert_eq!(used, ctx.solution.routes.len());
}

#[test]
fn multi_job_is_inserted_as_ordered_block() {
    let multi = Job {
        kind: JobKind::Multi,
        places: vec![
            Place { location: 1, duration: 0, times: vec![TimeWindow { start: 0, end: 1000 }] },
            Place { location: 3, duration: 0, times: vec![TimeWindow { start: 0, end: 1000 }] },
        ],
        demand: 2,
        dimens: Dimensions { id: 7, priority: None, job_type: JobType::Service, vehicle_id: None },
    };
    let ctx = run(context(vec![multi], vec![actor(1)], default_modules()));
    let acts = &ctx.solution.routes[0].tour.activities;
    assert_eq!(acts.len(), 4);
    assert_eq!(acts[1].location, 1);
    assert_eq!(acts[2].location, 3);
    assert_eq!(acts[1].job, Some(0));
    assert_eq!(acts[2].job, Some(0));
    assert_eq!(ctx.solution.routes[0].load, 2);
}
