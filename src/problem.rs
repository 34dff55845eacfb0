//! The immutable problem and the insertion context of one construction run.
use vstd::prelude::*;
use crate::models::Job;
use crate::pipeline::ConstraintPipeline;
use crate::solution::SolutionContext;
use crate::random::DefaultRandom;

verus! {

/// The problem: jobs, a square distance matrix and the constraint pipeline.
#[derive(Clone, Debug)]
pub struct Problem {
    pub jobs: Vec<Job>,
    /// Number of locations; the matrix has one row per location.
    pub size: usize,
    /// Distances indexed by `from * size + to`.
    pub distances: Vec<u32>,
    pub pipeline: ConstraintPipeline,
}

impl Problem {
    pub open spec fn wf(&self) -> bool {
        &&& self.distances@.len() == self.size * self.size
        &&& self.pipeline.wf()
        &&& forall|j: int| 0 <= j < self.jobs@.len() ==> (#[trigger] self.jobs@[j]).wf()
    }

    /// The distance from one location to another; locations outside the
    /// matrix are at distance zero.
    pub open spec fn dist(&self, from: usize, to: usize) -> int {
        if from < self.size && to < self.size {
            self.distances@[from * self.size + to] as int
        } else {
            0
        }
    }

    pub fn distance(&self, from: usize, to: usize) -> (d: u32)
        requires
            self.distances@.len() == self.size * self.size,
        ensures
            d == self.dist(from, to),
    {
        let len = self.distances.len();
        if from < self.size && to < self.size {
            assert(from * self.size <= from * self.size + to < self.size * self.size) by (nonlinear_arith)
                requires
                    from < self.size,
                    to < self.size,
            ;
            self.distances[from * self.size + to]
        } else {
            0
        }
    }
}

/// The state handed to the construction engine.
pub struct InsertionContext {
    pub problem: Problem,
    pub solution: SolutionContext,
    /// The source of random draws.
    pub random: DefaultRandom,
}

impl InsertionContext {
    pub open spec fn wf(&self) -> bool {
        &&& self.problem.wf()
        &&& self.solution.wf(self.problem.jobs@)
    }
}

} // verus!
