//! A set of actor indices held in a `hashbrown` hash set.
use vstd::prelude::*;

verus! {

/// A set of actor indices.
#[verifier::external_body]
pub struct ActorSet {
    inner: hashbrown::HashSet<usize>,
}

/// The actor indices an `ActorSet` holds.
pub uninterp spec fn actor_set_contents(s: ActorSet) -> Set<usize>;

impl ActorSet {
    /// Relies on `hashbrown::HashSet::new`: the set is empty.
    #[verifier::external_body]
    pub(crate) fn new() -> (r: ActorSet)
        ensures
            actor_set_contents(r) == Set::<usize>::empty(),
    {
        ActorSet { inner: hashbrown::HashSet::new() }
    }

    /// Relies on `hashbrown::HashSet::contains`: whether the value is held.
    #[verifier::external_body]
    pub(crate) fn contains(&self, a: usize) -> (r: bool)
        ensures
            r == actor_set_contents(*self).contains(a),
    {
        self.inner.contains(&a)
    }

    /// Relies on `hashbrown::HashSet::insert`: the value is added; the result
    /// says whether it was absent.
    #[verifier::external_body]
    pub(crate) fn insert(&mut self, a: usize) -> (r: bool)
        ensures
            actor_set_contents(*final(self)) == actor_set_contents(*old(self)).insert(a),
            r == !actor_set_contents(*old(self)).contains(a),
    {
        self.inner.insert(a)
    }
}

} // verus!
