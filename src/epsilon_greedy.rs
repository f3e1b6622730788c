use vstd::prelude::*;
use crate::error::{BanditError, StateError};
use crate::random::random_below;
use crate::reward::{RewardAggregator, REWARD_SCALE};
use crate::state::{Keyed, StateStore};

verus! {

/// Epsilon-greedy selection over a state store: with probability epsilon a
/// registered arm is drawn uniformly (exploration), otherwise the store's
/// best arm is taken (exploitation).
///
/// Epsilon is a fixed-point probability: `REWARD_SCALE` units are one.
#[derive(Debug, Clone, Copy)]
pub struct EpsilonGreedy {
    epsilon: i64,
}

/// Whether `epsilon` units make a probability.
pub open spec fn valid_epsilon(epsilon: i64) -> bool {
    0 <= epsilon <= REWARD_SCALE
}

impl EpsilonGreedy {
    pub closed spec fn epsilon_spec(self) -> i64 {
        self.epsilon
    }

    pub open spec fn wf(self) -> bool {
        valid_epsilon(self.epsilon_spec())
    }

    /// A selector exploring with probability `epsilon / REWARD_SCALE`.
    pub fn new(epsilon: i64) -> (r: Result<Self, BanditError>)
        ensures
            valid_epsilon(epsilon) ==> r is Ok && r->Ok_0.epsilon_spec() == epsilon,
            !valid_epsilon(epsilon) ==> r == Err::<Self, BanditError>(BanditError::InvalidEpsilon(epsilon)),
    {
        if epsilon < 0 || epsilon > REWARD_SCALE {
            return Err(BanditError::InvalidEpsilon(epsilon));
        }
        Ok(EpsilonGreedy { epsilon })
    }

    pub fn epsilon(&self) -> (r: i64)
        ensures
            r == self.epsilon_spec(),
    {
        self.epsilon
    }

    /// Whether a uniform draw `draw` in `0 .. REWARD_SCALE` means exploring.
    pub open spec fn explores(self, draw: u64) -> bool {
        (draw as int) < self.epsilon_spec()
    }

    /// The selection for given random draws: `draw` decides between
    /// exploring and exploiting, `pick` names the explored arm (modulo the
    /// number of arms).
    pub fn select_arm_with<A: Keyed, RA: RewardAggregator>(&self, state: &StateStore<A, RA>, draw: u64, pick: usize) -> (r: Result<A, BanditError>)
        requires
            state.wf(),
        ensures
            state.arms().len() == 0 ==> r == Err::<A, BanditError>(
                BanditError::StateError(StateError::NoArmsAvailable),
            ),
            state.arms().len() > 0 && self.explores(draw) ==> r == Ok::<A, BanditError>(
                state.arms()[(pick as int) % (state.arms().len() as int)],
            ),
            state.arms().len() > 0 && !self.explores(draw) ==> r is Ok && exists|b: int|
                #[trigger] state.is_best_index(b) && r->Ok_0 == state.arms()[b],
    {
        let n = state.len();
        if n == 0 {
            return Err(BanditError::StateError(StateError::NoArmsAvailable));
        }
        if (draw as i128) < (self.epsilon as i128) {
            Ok(state.arm_at(pick % n).duplicate())
        } else {
            match state.best_arm() {
                Ok(a) => Ok(a),
                Err(e) => Err(BanditError::StateError(e)),
            }
        }
    }

    /// Draws and selects: the chosen arm is always a registered one, and the
    /// best one when epsilon is zero.
    pub fn select_arm<A: Keyed, RA: RewardAggregator>(&self, state: &StateStore<A, RA>) -> (r: Result<A, BanditError>)
        requires
            self.wf(),
            state.wf(),
        ensures
            state.arms().len() == 0 ==> r == Err::<A, BanditError>(
                BanditError::StateError(StateError::NoArmsAvailable),
            ),
            state.arms().len() > 0 ==> r is Ok && state.arms().contains(r->Ok_0),
            state.arms().len() > 0 && self.epsilon_spec() == 0 ==> exists|b: int|
                #[trigger] state.is_best_index(b) && r->Ok_0 == state.arms()[b],
    {
        let n = state.len();
        if n == 0 {
            return Err(BanditError::StateError(StateError::NoArmsAvailable));
        }
        let draw = random_below(REWARD_SCALE as u64);
        let pick = random_below(n as u64) as usize;
        let r = self.select_arm_with(state, draw, pick);
        proof {
            if self.explores(draw) {
                let i = (pick as int) % (state.arms().len() as int);
                assert(state.arms()[i] == r->Ok_0);
            } else {
                let b = choose|b: int| #[trigger] state.is_best_index(b) && r->Ok_0 == state.arms()[b];
                assert(state.arms()[b] == r->Ok_0);
            }
        }
        r
    }
}

/// With exploration off, an arm whose estimate is strictly greater than
/// every other arm's is the only best arm: exploitation must pick it.
pub proof fn greedy_picks_strict_maximum<A: Keyed, RA: RewardAggregator>(state: &StateStore<A, RA>, i: int)
    requires
        state.wf(),
        0 <= i < state.arms().len(),
        forall|j: int| 0 <= j < state.arms().len() && j != i ==> #[trigger] state.estimate_at(j).lt_spec(state.estimate_at(i)),
    ensures
        forall|b: int| #[trigger] state.is_best_index(b) ==> b == i,
{
    assert forall|b: int| #[trigger] state.is_best_index(b) implies b == i by {
        if b != i {
            assert(state.estimate_at(i).le_spec(state.estimate_at(b)));
            assert(state.estimate_at(b).lt_spec(state.estimate_at(i)));
        }
    }
}

} // verus!
