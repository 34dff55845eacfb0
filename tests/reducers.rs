use vrp_engine::random::DefaultRandom;
use vrp_engine::breaks::BreakModule;
use vrp_engine::capacity::{CapacityModule, TimeModule};
use vrp_engine::constraints::{BREAK_CONSTRAINT_CODE, CAPACITY_CONSTRAINT_CODE, PRIORITY_CONSTRAINT_CODE, TIME_CONSTRAINT_CODE};
use vrp_engine::evaluator::{evaluate_job_insertion_in_route, InsertionPosition};
use vrp_engine::gaps::{GapsJobSelector, RecreateWithGaps};
use vrp_engine::heuristic::{insert, JobMapReducer, JobSelector, Quota};
use vrp_engine::insertions::{evaluate_job_insertion, AllRouteSelector, BestResultSelector, InsertionResult, PairJobMapReducer};
use vrp_engine::models::{Actor, Costs, Dimensions, Job, JobKind, JobType, Place, TimeWindow, Tour};
use vrp_engine::pipeline::{ConstraintModule, ConstraintPipeline};
use vrp_engine::priorities::PriorityModule;
use vrp_engine::problem::{InsertionContext, Problem};
use vrp_engine::regret::{RecreateWithRegret, RegretJobMapReducer};
use vrp_engine::registry::Registry;
use vrp_engine::solution::{RouteContext, SolutionContext};

struct NeverReached;

impl Quota for NeverReached {
    fn is_reached(&self) -> bool {
        false
    }
}

fn job_at(id: u64, location: usize) -> Job {
    Job {
        kind: JobKind::Single,
        places: vec![Place { location, duration: 0, times: vec![TimeWindow { start: 0, end: 1000 }] }],
        demand: 1,
        dimens: Dimensions { id, priority: None, job_type: JobType::Service, vehicle_id: None },
    }
}

fn actor_at(vehicle_id: u64, location: usize) -> Actor {
    Actor {
        vehicle_id,
        costs: Costs { fixed: 100, per_distance: 1, per_service_time: 0 },
        capacity: 10,
        shift: TimeWindow { start: 0, end: 1000 },
        start_location: location,
        end_location: Some(location),
    }
}

fn line_matrix(size: usize) -> Vec<u32> {
    let mut d = Vec::new();
    for a in 0..size {
        for b in 0..size {
            d.push((a as i64 - b as i64).unsigned_abs() as u32);
        }
    }
    d
}

fn modules() -> Vec<ConstraintModule> {
    vec![
        ConstraintModule::Time(TimeModule::new(TIME_CONSTRAINT_CODE)),
        ConstraintModule::Capacity(CapacityModule::new(CAPACITY_CONSTRAINT_CODE)),
        ConstraintModule::Break(BreakModule::new(BREAK_CONSTRAINT_CODE)),
        ConstraintModule::Priority(PriorityModule::new(PRIORITY_CONSTRAINT_CODE)),
    ]
}

/// A context whose actors all own an empty committed route.
fn routed_context(jobs: Vec<Job>, actors: Vec<Actor>) -> InsertionContext {
    let n = jobs.len();
    let mut registry = Registry::new(actors.clone());
    let mut routes = Vec::new();
    for (i, a) in actors.iter().enumerate() {
        registry.use_route(i);
        routes.push(RouteContext { actor: i, tour: Tour::new(a), load: 0 });
    }
    let mut solution = SolutionContext::new(n, registry);
    solution.routes = routes;
    InsertionContext {
        problem: Problem { jobs, size: 20, distances: line_matrix(20), pipeline: ConstraintPipeline::new(modules()) },
        solution,
        random: DefaultRandom::new(),
    }
}

fn cost_of(r: &InsertionResult) -> Option<i128> {
    match r {
        InsertionResult::Success(s) => Some(s.cost),
        InsertionResult::Failure(_) => None,
    }
}

fn job_of(r: &InsertionResult) -> Option<usize> {
    match r {
        InsertionResult::Success(s) => Some(s.job),
        InsertionResult::Failure(f) => f.job,
    }
}

#[test]
fn delta_cost_of_unused_route_includes_fixed_cost() {
    let ctx = InsertionContext {
        problem: Problem {
            jobs: vec![job_at(1, 2)],
            size: 20,
            distances: line_matrix(20),
            pipeline: ConstraintPipeline::new(modules()),
        },
        solution: SolutionContext::new(1, Registry::new(vec![actor_at(1, 0)])),
        random: DefaultRandom::new(),
    };
    let r = evaluate_job_insertion(&ctx, 0, &AllRouteSelector::default(), InsertionPosition::Any);
    assert_eq!(cost_of(&r), Some(104));
}

#[test]
fn delta_cost_counts_detour_and_service() {
    let mut a = actor_at(1, 0);
    a.costs.per_service_time = 2;
    let mut j = job_at(1, 3);
    j.places[0].duration = 5;
    let ctx = routed_context(vec![j], vec![a]);
    let route = &ctx.solution.routes[0];
    let r = evaluate_job_insertion_in_route(&ctx, 0, route, InsertionPosition::Any);
    assert_eq!(cost_of(&r), Some(6 + 10));
}

#[test]
fn priority_penalty_adds_to_cost() {
    let mut j = job_at(1, 1);
    j.dimens.priority = Some(3);
    let ctx = routed_context(vec![j], vec![actor_at(1, 0)]);
    let r = evaluate_job_insertion_in_route(&ctx, 0, &ctx.solution.routes[0], InsertionPosition::Any);
    assert_eq!(cost_of(&r), Some(2 + 2_000_000_000));
    let mut big = routed_context(vec![ctx.problem.jobs[0].clone()], vec![actor_at(1, 0)]);
    big.solution.max_cost = 3_000_000_000;
    let r = evaluate_job_insertion_in_route(&big, 0, &big.solution.routes[0], InsertionPosition::Any);
    assert_eq!(cost_of(&r), Some(2 + 12_000_000_000));
}

#[test]
fn concrete_position_out_of_range_fails_without_code() {
    let ctx = routed_context(vec![job_at(1, 1)], vec![actor_at(1, 0)]);
    let r = evaluate_job_insertion_in_route(&ctx, 0, &ctx.solution.routes[0], InsertionPosition::Concrete(3));
    match r {
        InsertionResult::Failure(f) => {
            assert_eq!(f.constraint, -1);
            assert_eq!(f.job, Some(0));
        }
        InsertionResult::Success(_) => panic!("expected failure"),
    }
}

#[test]
fn choose_best_result_rules() {
    let cheap = InsertionResult::make_success(5, 0, 0, vec![], 0);
    let dear = InsertionResult::make_success(9, 1, 0, vec![], 0);
    assert_eq!(job_of(&InsertionResult::choose_best_result(dear, cheap)), Some(0));
    let left = InsertionResult::make_success(5, 0, 0, vec![], 0);
    let right = InsertionResult::make_success(5, 1, 0, vec![], 0);
    assert_eq!(job_of(&InsertionResult::choose_best_result(left, right)), Some(0));
    let fail = InsertionResult::make_failure_with_code(3, Some(2));
    let ok = InsertionResult::make_success(7, 1, 0, vec![], 0);
    assert_eq!(job_of(&InsertionResult::choose_best_result(fail, ok)), Some(1));
    let f1 = InsertionResult::make_failure_with_code(3, Some(2));
    let f2 = InsertionResult::make_failure_with_code(4, Some(3));
    assert_eq!(job_of(&InsertionResult::choose_best_result(f1, f2)), Some(3));
    let none = InsertionResult::make_failure();
    match none {
        InsertionResult::Failure(f) => {
            assert_eq!(f.constraint, -1);
            assert_eq!(f.job, None);
        }
        InsertionResult::Success(_) => panic!("expected failure"),
    }
}

#[test]
fn pair_reducer_cost_does_not_depend_on_order() {
    let jobs = vec![job_at(1, 4), job_at(2, 1), job_at(3, 7)];
    let ctx = routed_context(jobs, vec![actor_at(1, 0), actor_at(2, 10)]);
    let reducer = PairJobMapReducer::new(AllRouteSelector::default(), BestResultSelector::default());
    let a = reducer.reduce(&ctx, &vec![0, 1, 2], InsertionPosition::Any);
    let b = reducer.reduce(&ctx, &vec![2, 1, 0], InsertionPosition::Any);
    assert_eq!(cost_of(&a), Some(2));
    assert_eq!(cost_of(&a), cost_of(&b));
    assert_eq!(job_of(&a), Some(1));
}

fn regret_context() -> InsertionContext {
    // Three routes at 0, 6 and 12. Job 0 at 1: costs 2, 10, 22 (regret 8).
    // Job 1 at 5: costs 10, 2, 14 (regret 8). Job 2 at 13: costs 26, 14, 2 (regret 12).
    let jobs = vec![job_at(1, 1), job_at(2, 5), job_at(3, 13)];
    routed_context(jobs, vec![actor_at(1, 0), actor_at(2, 6), actor_at(3, 12)])
}

#[test]
fn regret_picks_largest_gap() {
    let ctx = regret_context();
    let reducer = RegretJobMapReducer::new(2, 2);
    let r = reducer.reduce_with_k(&ctx, &vec![0, 1, 2], InsertionPosition::Any, 2);
    assert_eq!(job_of(&r), Some(2));
    assert_eq!(cost_of(&r), Some(2));
    let drawn = reducer.reduce(&ctx, &vec![0, 1, 2], InsertionPosition::Any);
    assert_eq!(job_of(&drawn), Some(2));
}

#[test]
fn regret_winner_is_inserted_and_others_stay_required() {
    let mut ctx = regret_context();
    let reducer = RegretJobMapReducer::new(2, 2);
    let r = reducer.reduce_with_k(&ctx, &vec![0, 1, 2], InsertionPosition::Any, 2);
    insert(r, &mut ctx);
    let mut required = ctx.solution.required.clone();
    required.sort();
    assert_eq!(required, vec![0, 1]);
    assert!(ctx.solution.routes[2].tour.activities.iter().any(|a| a.job == Some(2)));
}

#[test]
fn regret_with_k_one_matches_pair_reducer() {
    let ctx = regret_context();
    let pair = PairJobMapReducer::new(AllRouteSelector::default(), BestResultSelector::default());
    let a = RegretJobMapReducer::new(1, 1).reduce_with_k(&ctx, &vec![0, 1, 2], InsertionPosition::Any, 1);
    let b = pair.reduce(&ctx, &vec![0, 1, 2], InsertionPosition::Any);
    assert_eq!(job_of(&a), job_of(&b));
    assert_eq!(cost_of(&a), cost_of(&b));
}

#[test]
fn regret_with_one_route_matches_pair_reducer() {
    let ctx = routed_context(vec![job_at(1, 1), job_at(2, 5)], vec![actor_at(1, 0)]);
    let pair = PairJobMapReducer::new(AllRouteSelector::default(), BestResultSelector::default());
    let a = RegretJobMapReducer::new(2, 3).reduce_with_k(&ctx, &vec![0, 1], InsertionPosition::Any, 3);
    let b = pair.reduce(&ctx, &vec![0, 1], InsertionPosition::Any);
    assert_eq!(job_of(&a), job_of(&b));
    assert_eq!(cost_of(&a), cost_of(&b));
}

#[test]
fn regret_counts_jobs_with_exactly_k_successes() {
    // Routes at 0 and 6. Job 0 at 3: costs 6, 6 (regret 0). Job 1 at 9: costs 18, 6 (regret 12).
    let ctx = routed_context(vec![job_at(1, 3), job_at(2, 9)], vec![actor_at(1, 0), actor_at(2, 6)]);
    let pair = PairJobMapReducer::new(AllRouteSelector::default(), BestResultSelector::default());
    let a = RegretJobMapReducer::new(2, 2).reduce_with_k(&ctx, &vec![0, 1], InsertionPosition::Any, 2);
    let b = pair.reduce(&ctx, &vec![0, 1], InsertionPosition::Any);
    assert_eq!(job_of(&a), Some(1));
    assert_eq!(cost_of(&a), Some(6));
    assert_eq!(job_of(&b), Some(0));
}

#[test]
fn regret_without_enough_successes_falls_back() {
    let ctx = routed_context(vec![job_at(1, 1), job_at(2, 5)], vec![actor_at(1, 0), actor_at(2, 6)]);
    let pair = PairJobMapReducer::new(AllRouteSelector::default(), BestResultSelector::default());
    let a = RegretJobMapReducer::new(3, 3).reduce_with_k(&ctx, &vec![0, 1], InsertionPosition::Any, 3);
    let b = pair.reduce(&ctx, &vec![0, 1], InsertionPosition::Any);
    assert_eq!(job_of(&a), job_of(&b));
    assert_eq!(cost_of(&a), cost_of(&b));
}

#[test]
fn gaps_selector_offers_a_prefix_of_required() {
    let jobs: Vec<Job> = (0..6).map(|i| job_at(i, i as usize)).collect();
    let mut ctx = routed_context(jobs, vec![actor_at(1, 0)]);
    let selector = GapsJobSelector { min_jobs: 2 };
    let picked = selector.select(&mut ctx);
    assert!(picked.len() >= 2 && picked.len() <= 6);
    assert_eq!(&ctx.solution.required[..picked.len()], &picked[..]);
    let mut all = ctx.solution.required.clone();
    all.sort();
    assert_eq!(all, vec![0, 1, 2, 3, 4, 5]);
}

#[test]
fn gaps_prefix_is_capped_by_required() {
    assert_eq!(GapsJobSelector::take_prefix(&vec![4, 2, 9], 2), vec![4, 2]);
    assert_eq!(GapsJobSelector::take_prefix(&vec![4, 2, 9], 7), vec![4, 2, 9]);
}

#[test]
fn recreate_strategies_place_every_job() {
    let jobs = vec![job_at(1, 1), job_at(2, 5), job_at(3, 13), job_at(4, 8)];
    let actors = vec![actor_at(1, 0), actor_at(2, 6), actor_at(3, 12)];
    let regret = RecreateWithRegret::default().run(routed_context(jobs.clone(), actors.clone()), None::<&NeverReached>);
    assert!(regret.solution.required.is_empty());
    assert!(regret.solution.unassigned.is_empty());
    let gaps = RecreateWithGaps::default().run(routed_context(jobs, actors), None::<&NeverReached>);
    assert!(gaps.solution.required.is_empty());
    assert!(gaps.solution.unassigned.is_empty());
}

#[test]
fn insert_failure_moves_only_that_job() {
    let mut ctx = routed_context(vec![job_at(1, 1), job_at(2, 2), job_at(3, 3)], vec![actor_at(1, 0)]);
    insert(InsertionResult::make_failure_with_code(CAPACITY_CONSTRAINT_CODE, Some(1)), &mut ctx);
    assert_eq!(ctx.solution.required, vec![0, 2]);
    assert_eq!(ctx.solution.unassigned, vec![(1, CAPACITY_CONSTRAINT_CODE)]);
    assert!(ctx.solution.ignored.is_empty());
}

#[test]
fn insert_success_opens_route_for_unused_actor() {
    let ctx0 = InsertionContext {
        problem: Problem {
            jobs: vec![job_at(1, 2), job_at(2, 4)],
            size: 20,
            distances: line_matrix(20),
            pipeline: ConstraintPipeline::new(modules()),
        },
        solution: SolutionContext::new(2, Registry::new(vec![actor_at(1, 0)])),
        random: DefaultRandom::new(),
    };
    let mut ctx = ctx0;
    let r = evaluate_job_insertion(&ctx, 0, &AllRouteSelector::default(), InsertionPosition::Any);
    insert(r, &mut ctx);
    assert!(ctx.solution.registry.used[0]);
    assert_eq!(ctx.solution.routes.len(), 1);
    let jobs: Vec<Option<usize>> = ctx.solution.routes[0].tour.activities.iter().map(|a| a.job).collect();
    assert_eq!(jobs, vec![None, Some(0), None]);
    assert_eq!(ctx.solution.required, vec![1]);
}
