use vstd::prelude::*;
use crate::entities::Reward;

verus! {

/// A source of contexts and rewards for a policy.
///
/// `get_reward` must be free of side effects: the same action in the same
/// context always gives the same value, `reward_value`. The default
/// `get_optimal_reward` calls it once per candidate purely to compare them.
pub trait Environment<A, R: Reward, C>: Sized {
    /// The value of the reward for taking `action` in `context`.
    spec fn reward_value(&self, action: A, context: C) -> i64;

    /// The current context.
    fn get_context(&self) -> C;

    /// The reward for taking `action` in `context`.
    fn get_reward(&self, action: &A, context: &C) -> (r: R)
        ensures
            r.value_spec() == self.reward_value(*action, *context),
    ;

    /// The best reward among `actions` in `context`: the greatest value,
    /// the later candidate on ties.
    fn get_optimal_reward(&self, context: &C, actions: &[A]) -> (r: R)
        requires
            actions@.len() > 0,
        ensures
            exists|i: int| 0 <= i < actions@.len() && r.value_spec() == #[trigger] self.reward_value(actions@[i], *context),
            forall|j: int| 0 <= j < actions@.len() ==> #[trigger] self.reward_value(actions@[j], *context) <= r.value_spec(),
    {
        let mut best = self.get_reward(&actions[0], context);
        let mut best_value = best.value();
        let mut i: usize = 1;
        while i < actions.len()
            invariant
                1 <= i <= actions@.len(),
                best_value == best.value_spec(),
                exists|k: int| 0 <= k < i && best_value == #[trigger] self.reward_value(actions@[k], *context),
                forall|j: int| 0 <= j < i ==> #[trigger] self.reward_value(actions@[j], *context) <= best_value,
            decreases actions@.len() - i,
        {
            let candidate = self.get_reward(&actions[i], context);
            let v = candidate.value();
            if v >= best_value {
                best = candidate;
                best_value = v;
            }
            i = i + 1;
        }
        best
    }
}

} // verus!
