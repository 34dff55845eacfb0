//! The random source of a construction run, threaded through the insertion
//! context.
use vstd::prelude::*;
use rand::Rng;
use rand::seq::SliceRandom;

verus! {

/// The random source: draws come from the thread's generator.
#[derive(Clone, Copy, Debug, PartialEq, Eq, Structural)]
pub struct DefaultRandom {}

impl DefaultRandom {
    pub fn new() -> (r: DefaultRandom)
        ensures
            r == (DefaultRandom {}),
    {
        DefaultRandom {}
    }

    /// Relies on `rand::Rng::gen_range` over an inclusive range of `usize`
    /// (through `rand::thread_rng`): the value lies in `[min, max]`. The range
    /// may not be empty, where `gen_range` panics.
    #[verifier::external_body]
    pub(crate) fn uniform_usize(&self, min: usize, max: usize) -> (r: usize)
        requires
            min <= max,
        ensures
            min <= r <= max,
    {
        rand::thread_rng().gen_range(min..=max)
    }

    /// Relies on `rand::seq::SliceRandom::shuffle` (through `rand::thread_rng`):
    /// the elements are permuted in place.
    #[verifier::external_body]
    pub(crate) fn shuffle_jobs(&self, v: &mut Vec<usize>)
        ensures
            final(v)@.to_multiset() == old(v)@.to_multiset(),
    {
        v.shuffle(&mut rand::thread_rng());
    }
}

} // verus!
