use vrp_engine::random::DefaultRandom;
use vrp_engine::breaks::{demote_unassigned_breaks, is_break, BreakModule};
use vrp_engine::constraints::{ActivityContext, ActivityConstraintViolation, BREAK_CONSTRAINT_CODE, PRIORITY_CONSTRAINT_CODE};
use vrp_engine::heuristic::{finalize_ctx, prepare_ctx, remove_job};
use vrp_engine::models::{Actor, Activity, Costs, Dimensions, Job, JobKind, JobType, Place, TimeWindow, Tour};
use vrp_engine::pipeline::{ConstraintModule, ConstraintPipeline};
use vrp_engine::priorities::{get_priority, PriorityModule};
use vrp_engine::problem::{InsertionContext, Problem};
use vrp_engine::registry::Registry;
use vrp_engine::solution::{RouteContext, SolutionContext};

fn job(id: u64, kind: JobType, vehicle_id: Option<u64>, priority: Option<i32>) -> Job {
    Job {
        kind: JobKind::Single,
        places: vec![Place { location: 0, duration: 0, times: vec![TimeWindow { start: 0, end: 100 }] }],
        demand: 0,
        dimens: Dimensions { id, priority, job_type: kind, vehicle_id },
    }
}

fn actor(vehicle_id: u64) -> Actor {
    Actor {
        vehicle_id,
        costs: Costs { fixed: 0, per_distance: 1, per_service_time: 0 },
        capacity: 5,
        shift: TimeWindow { start: 0, end: 100 },
        start_location: 0,
        end_location: None,
    }
}

fn pipeline() -> ConstraintPipeline {
    ConstraintPipeline::new(vec![
        ConstraintModule::Break(BreakModule::new(BREAK_CONSTRAINT_CODE)),
        ConstraintModule::Priority(PriorityModule::new(PRIORITY_CONSTRAINT_CODE)),
    ])
}

/// Jobs: 0 service, 1 break of vehicle 1, 2 break of vehicle 2, 3 service.
/// Vehicle 1 owns a route serving job 3.
fn state() -> InsertionContext {
    let jobs = vec![
        job(1, JobType::Service, None, None),
        job(2, JobType::Break, Some(1), None),
        job(3, JobType::Break, Some(2), None),
        job(4, JobType::Service, None, None),
    ];
    let a = actor(1);
    let mut registry = Registry::new(vec![a, actor(2)]);
    registry.use_route(0);
    let mut tour = Tour::new(&a);
    tour.insert_at(Activity { job: Some(3), location: 0, duration: 0, demand: 3 }, 1);
    let mut solution = SolutionContext::new(4, registry);
    solution.required = vec![0];
    solution.unassigned = vec![(1, 5), (2, 5)];
    solution.routes = vec![RouteContext { actor: 0, tour, load: 0 }];
    InsertionContext { problem: Problem { jobs, size: 1, distances: vec![0], pipeline: pipeline() }, solution, random: DefaultRandom::new() }
}

fn sorted(v: &[usize]) -> Vec<usize> {
    let mut v = v.to_vec();
    v.sort();
    v
}

#[test]
fn broadcast_repartitions_then_demotes_breaks() {
    let mut ctx = state();
    ctx.problem.pipeline.accept_solution_state(&mut ctx.solution, &ctx.problem.jobs);
    let s = &ctx.solution;
    assert!(s.unassigned.is_empty());
    assert_eq!(s.required, vec![0]);
    assert_eq!(sorted(&s.ignored), vec![1, 2]);
    assert_eq!(s.routes[0].load, 3);
}

#[test]
fn ignored_break_of_routed_vehicle_becomes_required() {
    let mut ctx = state();
    ctx.solution.unassigned = vec![(2, 5)];
    ctx.solution.ignored = vec![1];
    ctx.problem.pipeline.accept_solution_state(&mut ctx.solution, &ctx.problem.jobs);
    assert_eq!(sorted(&ctx.solution.required), vec![0, 1]);
    assert_eq!(ctx.solution.ignored, vec![2]);
}

#[test]
fn broadcast_twice_changes_nothing() {
    let mut ctx = state();
    ctx.solution.unassigned = vec![(2, 5)];
    ctx.solution.ignored = vec![1];
    ctx.problem.pipeline.accept_solution_state(&mut ctx.solution, &ctx.problem.jobs);
    let once = ctx.solution.clone();
    ctx.problem.pipeline.accept_solution_state(&mut ctx.solution, &ctx.problem.jobs);
    assert_eq!(sorted(&once.required), sorted(&ctx.solution.required));
    assert_eq!(sorted(&once.ignored), sorted(&ctx.solution.ignored));
    assert_eq!(once.unassigned, ctx.solution.unassigned);
    assert_eq!(once.routes[0].load, ctx.solution.routes[0].load);
}

#[test]
fn demotion_moves_only_breaks() {
    let mut ctx = state();
    ctx.solution.unassigned.push((0, 4));
    ctx.solution.required = vec![];
    demote_unassigned_breaks(&mut ctx.solution, &ctx.problem.jobs);
    assert_eq!(ctx.solution.unassigned, vec![(0, 4)]);
    assert_eq!(sorted(&ctx.solution.ignored), vec![1, 2]);
}

#[test]
fn finalize_empties_required() {
    let mut ctx = state();
    prepare_ctx(&mut ctx);
    assert!(ctx.solution.unassigned.is_empty());
    finalize_ctx(&mut ctx);
    assert!(ctx.solution.required.is_empty());
    assert_eq!(ctx.solution.unassigned, vec![(0, 0)]);
    assert_eq!(sorted(&ctx.solution.ignored), vec![1, 2]);
}

#[test]
fn break_rule_rejects_position_after_departure() {
    let jobs = vec![job(1, JobType::Break, Some(1), None), job(2, JobType::Service, None, None)];
    let m = BreakModule::new(BREAK_CONSTRAINT_CODE);
    let at_start = ActivityContext { prev: None, target: Some(0), next: None };
    assert_eq!(
        m.evaluate_activity(&jobs, &at_start),
        Some(ActivityConstraintViolation { code: BREAK_CONSTRAINT_CODE, stopped: false })
    );
    let after_job = ActivityContext { prev: Some(1), target: Some(0), next: None };
    assert_eq!(m.evaluate_activity(&jobs, &after_job), None);
    assert!(is_break(&jobs[0]));
    assert!(!is_break(&jobs[1]));
}

#[test]
fn priority_rule_on_triples() {
    let jobs = vec![job(1, JobType::Service, None, Some(2)), job(2, JobType::Service, None, Some(1))];
    let m = PriorityModule::new(PRIORITY_CONSTRAINT_CODE);
    let after = ActivityContext { prev: Some(0), target: Some(1), next: None };
    assert_eq!(m.evaluate_activity(&jobs, &after), Some(ActivityConstraintViolation { code: PRIORITY_CONSTRAINT_CODE, stopped: false }));
    let before = ActivityContext { prev: None, target: Some(0), next: Some(1) };
    assert_eq!(m.evaluate_activity(&jobs, &before), Some(ActivityConstraintViolation { code: PRIORITY_CONSTRAINT_CODE, stopped: true }));
    let alone = ActivityContext { prev: None, target: Some(0), next: None };
    assert_eq!(m.evaluate_activity(&jobs, &alone), None);
    let ordered = ActivityContext { prev: Some(1), target: Some(0), next: None };
    assert_eq!(m.evaluate_activity(&jobs, &ordered), None);
    assert_eq!(get_priority(&jobs[0]), Some(2));
    assert_eq!(m.estimate_job(&jobs[0], 0), 1_000_000_000);
    assert_eq!(m.estimate_job(&jobs[1], 0), 0);
}

#[test]
fn remove_job_drops_every_copy() {
    let mut v = vec![3, 1, 3, 2];
    remove_job(&mut v, 3);
    assert_eq!(v, vec![1, 2]);
}

#[test]
fn registry_offers_unused_actors() {
    let mut r = Registry::new(vec![actor(1), actor(2), actor(3)]);
    assert!(r.use_route(1));
    assert!(!r.use_route(1));
    let fresh = r.next();
    let actors: Vec<usize> = fresh.iter().map(|c| c.actor).collect();
    assert_eq!(actors, vec![0, 2]);
    assert!(fresh.iter().all(|c| c.tour.activities.len() == 1 && c.load == 0));
}
