use vstd::prelude::*;
use crate::entities::Reward;
use crate::error::StateError;

verus! {

/// What the simulator needs of a selection algorithm.
pub trait BanditPolicy<A, R: Reward, C>: Sized {
    /// The policy's own consistency condition.
    spec fn inv(&self) -> bool;

    /// Whether `action` is a choice the policy may make in its present state.
    spec fn chooses(&self, action: A) -> bool;

    /// Whether recording a reward of `value` units for `action` in `context`
    /// may give the outcome `r` and leave the policy as `next`.
    spec fn updates_to(&self, context: C, action: A, value: i64, r: Result<(), StateError>, next: Self) -> bool;

    /// Whether a reset may leave the policy as `next`.
    spec fn resets_to(&self, next: Self) -> bool;

    /// Chooses an action; non-contextual policies ignore `context`.
    fn choose_action(&self, context: &C) -> (r: A)
        requires
            self.inv(),
        ensures
            self.chooses(r),
    ;

    /// Records the outcome of taking `action` in `context`.
    fn update(&mut self, context: &C, action: &A, reward: &R) -> (r: Result<(), StateError>)
        requires
            old(self).inv(),
        ensures
            final(self).inv(),
            old(self).updates_to(*context, *action, reward.value_spec(), r, *final(self)),
    ;

    /// Forgets every outcome recorded so far.
    fn reset(&mut self)
        requires
            old(self).inv(),
        ensures
            final(self).inv(),
            old(self).resets_to(*final(self)),
    ;
}

} // verus!
