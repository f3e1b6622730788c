use vstd::prelude::*;
use crate::entities::{last_with_key, prefix_has_key, Action, ActionStorage, Context, Reward};
use crate::epsilon_greedy::{valid_epsilon, EpsilonGreedy};
use crate::error::{OctopusError, RewardError, StateError};
use crate::policy::BanditPolicy;
use crate::random::random_below;
use crate::ratio::Ratio;
use crate::reward::{empty_mean, reward_of, MeanAggregator, NumericReward, RewardAggregator, REWARD_SCALE};
use crate::state::{ArmState, Keyed, StateStore};
use crate::text::{fixed_point, fixed_point_text};

verus! {

/// Whether `e` is the invalid-parameter error with these three texts.
pub open spec fn is_invalid_parameter(e: OctopusError, name: Seq<char>, value: Seq<char>, range: Seq<char>) -> bool {
    match e {
        OctopusError::InvalidParameter { parameter_name, value: v, expected_range } => parameter_name@ == name
            && v@ == value && expected_range@ == range,
        _ => false,
    }
}

fn empty_actions_error() -> (e: OctopusError)
    ensures
        is_invalid_parameter(e, "initial_actions"@, "empty"@, "non-empty slice of actions"@),
{
    proof {
        reveal_strlit("initial_actions");
        reveal_strlit("empty");
        reveal_strlit("non-empty slice of actions");
    }
    OctopusError::InvalidParameter {
        parameter_name: "initial_actions".to_owned(),
        value: "empty".to_owned(),
        expected_range: "non-empty slice of actions".to_owned(),
    }
}

/// Epsilon-greedy as a policy: a selector over a store of its own actions,
/// whose statistics are kept by aggregators of type `RA`.
pub struct EpsilonGreedyPolicy<A, RA> {
    selector: EpsilonGreedy,
    store: StateStore<A, RA>,
}

impl<A: Action> EpsilonGreedyPolicy<A, MeanAggregator> {
    /// A policy over `initial_actions` that keeps running means, exploring
    /// with probability `epsilon / REWARD_SCALE`.
    pub fn new(epsilon: i64, initial_actions: &[A]) -> (r: Result<Self, OctopusError>)
        ensures
            !valid_epsilon(epsilon) ==> r is Err && is_invalid_parameter(
                r->Err_0,
                "epsilon"@,
                fixed_point(epsilon as int),
                "0.0 to 1.0 inclusive"@,
            ),
            valid_epsilon(epsilon) && initial_actions@.len() == 0 ==> r is Err && is_invalid_parameter(
                r->Err_0,
                "initial_actions"@,
                "empty"@,
                "non-empty slice of actions"@,
            ),
            valid_epsilon(epsilon) && initial_actions@.len() > 0 ==> r is Ok && r->Ok_0.wf()
                && r->Ok_0.epsilon_spec() == epsilon
                && r->Ok_0.registers(initial_actions@)
                && (forall|i: int| 0 <= i < r->Ok_0.store_spec().states().len()
                    ==> #[trigger] r->Ok_0.store_spec().states()[i] == ArmState::<MeanAggregator>::new_spec(empty_mean())),
    {
        Self::with_aggregator(epsilon, initial_actions, &MeanAggregator::new())
    }
}

impl<A: Action, RA: RewardAggregator> EpsilonGreedyPolicy<A, RA> {
    pub closed spec fn epsilon_spec(&self) -> i64 {
        self.selector.epsilon_spec()
    }

    /// The store of per-action statistics.
    pub closed spec fn store_spec(&self) -> StateStore<A, RA> {
        self.store
    }

    pub open spec fn wf(&self) -> bool {
        &&& valid_epsilon(self.epsilon_spec())
        &&& self.store_spec().wf()
        &&& self.store_spec().arms().len() > 0
    }

    /// Whether the registered actions are those of `initial`, one per
    /// identifier: the last action given with it.
    pub open spec fn registers(&self, initial: Seq<A>) -> bool {
        &&& forall|k: u64| #[trigger] self.store_spec().registered(k) <==> prefix_has_key(initial, initial.len() as int, k)
        &&& forall|p: int| 0 <= p < self.store_spec().arms().len() ==> #[trigger] last_with_key(
            initial,
            initial.len() as int,
            self.store_spec().arms()[p],
        )
    }

    /// Whether `a` may be chosen: a registered action, and a best one when
    /// epsilon is zero.
    pub open spec fn may_choose(&self, a: A) -> bool {
        &&& self.store_spec().arms().contains(a)
        &&& self.epsilon_spec() == 0 ==> exists|b: int| #[trigger] self.store_spec().is_best_index(b) && a == self.store_spec().arms()[b]
    }

    /// Whether recording `value` units for the action with key `key` may give
    /// `r` and leave the policy as `next`.
    pub open spec fn records(&self, key: u64, value: i64, r: Result<(), StateError>, next: Self) -> bool {
        &&& next.epsilon_spec() == self.epsilon_spec()
        &&& next.store_spec().arms() == self.store_spec().arms()
        &&& next.store_spec().keys() == self.store_spec().keys()
        &&& !self.store_spec().registered(key) ==> r == Err::<(), StateError>(StateError::ArmNotFound)
            && next.store_spec().states() == self.store_spec().states()
        &&& self.store_spec().registered(key) ==> ({
            let i = self.store_spec().slot_of(key);
            let (res, s) = self.store_spec().states()[i].update_outcome(reward_of(value));
            r == res && next.store_spec().states() == self.store_spec().states().update(i, s)
        })
    }

    /// Whether `next` is this policy with every action's statistics cleared.
    pub open spec fn cleared_to(&self, next: Self) -> bool {
        &&& next.epsilon_spec() == self.epsilon_spec()
        &&& next.store_spec().arms() == self.store_spec().arms()
        &&& next.store_spec().keys() == self.store_spec().keys()
        &&& next.store_spec().states().len() == self.store_spec().states().len()
        &&& forall|i: int| 0 <= i < next.store_spec().states().len() ==> #[trigger] next.store_spec().states()[i]
            == self.store_spec().states()[i].cleared()
    }

    /// A policy over `initial_actions`, exploring with probability
    /// `epsilon / REWARD_SCALE`, each action starting from a fresh copy of
    /// `prototype`. Of several actions with one identifier the last is kept,
    /// at the place of the first.
    pub fn with_aggregator(epsilon: i64, initial_actions: &[A], prototype: &RA) -> (r: Result<Self, OctopusError>)
        ensures
            !valid_epsilon(epsilon) ==> r is Err && is_invalid_parameter(
                r->Err_0,
                "epsilon"@,
                fixed_point(epsilon as int),
                "0.0 to 1.0 inclusive"@,
            ),
            valid_epsilon(epsilon) && initial_actions@.len() == 0 ==> r is Err && is_invalid_parameter(
                r->Err_0,
                "initial_actions"@,
                "empty"@,
                "non-empty slice of actions"@,
            ),
            valid_epsilon(epsilon) && initial_actions@.len() > 0 ==> r is Ok && r->Ok_0.wf()
                && r->Ok_0.epsilon_spec() == epsilon
                && r->Ok_0.registers(initial_actions@)
                && (forall|i: int| 0 <= i < r->Ok_0.store_spec().states().len()
                    ==> #[trigger] r->Ok_0.store_spec().states()[i] == ArmState::<RA>::new_spec(prototype.fresh_spec())),
    {
        if !(0 <= epsilon && epsilon <= REWARD_SCALE) {
            proof {
                reveal_strlit("epsilon");
                reveal_strlit("0.0 to 1.0 inclusive");
            }
            return Err(OctopusError::InvalidParameter {
                parameter_name: "epsilon".to_owned(),
                value: fixed_point_text(epsilon),
                expected_range: "0.0 to 1.0 inclusive".to_owned(),
            });
        }
        if initial_actions.len() == 0 {
            return Err(empty_actions_error());
        }
        let selector = EpsilonGreedy::new(epsilon).unwrap();
        let actions = ActionStorage::new(initial_actions).unwrap();
        let ghost ks = actions.keys();
        let ghost acts = actions.actions();
        proof {
            assert(prefix_has_key(initial_actions@, initial_actions@.len() as int, initial_actions@[0].key_spec()));
            assert(ks.contains(initial_actions@[0].key_spec()));
        }
        let n = actions.len();
        let mut store: StateStore<A, RA> = StateStore::new();
        let mut i: usize = 0;
        while i < n
            invariant
                actions.wf(),
                ks == actions.keys(),
                acts == actions.actions(),
                n == acts.len(),
                i <= n,
                store.wf(),
                store.keys() == ks.take(i as int),
                store.arms() == acts.take(i as int),
                forall|j: int| 0 <= j < store.states().len() ==> #[trigger] store.states()[j] == ArmState::<RA>::new_spec(prototype.fresh_spec()),
            decreases n - i,
        {
            let a = actions.action_at(i).duplicate();
            let ghost before = store;
            proof {
                if store.registered(a.key_spec()) {
                    let q = choose|q: int| 0 <= q < store.keys().len() && store.keys()[q] == a.key_spec();
                    assert(ks[q] == ks[i as int]);
                }
            }
            let res = store.add_arm(a, prototype.fresh());
            proof {
                assert(store.keys() =~= ks.take(i + 1));
                assert(store.arms() =~= acts.take(i + 1));
                assert forall|j: int| 0 <= j < store.states().len() implies #[trigger] store.states()[j] == ArmState::<RA>::new_spec(prototype.fresh_spec()) by {
                    if j < before.states().len() {
                        assert(store.states()[j] == before.states()[j]);
                    }
                }
            }
            i = i + 1;
        }
        let r = EpsilonGreedyPolicy { selector, store };
        proof {
            assert(store.keys() =~= ks);
            assert(store.arms() =~= acts);
            assert forall|k: u64| #[trigger] r.store_spec().registered(k) <==> prefix_has_key(initial_actions@, initial_actions@.len() as int, k) by {
                assert(ks.contains(k) <==> prefix_has_key(initial_actions@, initial_actions@.len() as int, k));
            }
        }
        Ok(r)
    }

    pub fn epsilon(&self) -> (r: i64)
        ensures
            r == self.epsilon_spec(),
    {
        self.selector.epsilon()
    }

    /// An independent copy: same epsilon, same actions, same statistics.
    pub fn duplicate(&self) -> (r: Self)
        requires
            self.wf(),
        ensures
            r.wf(),
            r.epsilon_spec() == self.epsilon_spec(),
            r.store_spec().arms() == self.store_spec().arms(),
            r.store_spec().keys() == self.store_spec().keys(),
            r.store_spec().states() == self.store_spec().states(),
    {
        EpsilonGreedyPolicy { selector: self.selector, store: self.store.duplicate() }
    }

    /// Chooses an action: a registered one, and the best one (the later on
    /// ties) when epsilon is zero.
    pub fn select(&self) -> (r: A)
        requires
            self.wf(),
        ensures
            self.may_choose(r),
    {
        let r = self.selector.select_arm(&self.store);
        r.unwrap()
    }

    /// The choice for given uniform draws: `draw` in `0 .. REWARD_SCALE`
    /// explores when below epsilon, and then `pick` (modulo the number of
    /// actions) names the action taken; otherwise a best action is taken.
    pub fn select_with(&self, draw: u64, pick: usize) -> (r: A)
        requires
            self.wf(),
        ensures
            (draw as int) < self.epsilon_spec() ==> r == self.store_spec().arms()[(pick as int) % (
            self.store_spec().arms().len() as int)],
            (draw as int) >= self.epsilon_spec() ==> exists|b: int| #[trigger] self.store_spec().is_best_index(b) && r
                == self.store_spec().arms()[b],
    {
        self.selector.select_arm_with(&self.store, draw, pick).unwrap()
    }

    /// Records a reward of `value` units for `action`.
    pub fn record(&mut self, action: &A, value: i64) -> (r: Result<(), StateError>)
        requires
            old(self).wf(),
        ensures
            final(self).wf(),
            old(self).records(action.key_spec(), value, r, *final(self)),
    {
        self.store.update_by_key(action.key(), NumericReward::new(value))
    }

    /// Clears every action's statistics; the actions stay registered.
    pub fn clear(&mut self)
        requires
            old(self).wf(),
        ensures
            final(self).wf(),
            old(self).cleared_to(*final(self)),
    {
        self.store.reset();
    }

    /// The number of rewards recorded for `action`.
    pub fn pulls(&self, action: &A) -> (r: Result<u64, StateError>)
        requires
            self.wf(),
        ensures
            !self.store_spec().registered(action.key_spec()) ==> r == Err::<u64, StateError>(StateError::ArmNotFound),
            self.store_spec().registered(action.key_spec()) ==> r == Ok::<u64, StateError>(
                self.store_spec().pulls_of(action.key_spec()),
            ),
    {
        self.store.pulls_by_key(action.key())
    }

    /// The mean reward recorded for `action`, zero before any.
    pub fn estimate(&self, action: &A) -> (r: Result<Ratio, StateError>)
        requires
            self.wf(),
        ensures
            !self.store_spec().registered(action.key_spec()) ==> r == Err::<Ratio, StateError>(StateError::ArmNotFound),
            self.store_spec().registered(action.key_spec()) ==> r == Ok::<Ratio, StateError>(
                self.store_spec().estimate_at(self.store_spec().slot_of(action.key_spec())),
            ),
    {
        self.store.estimate_by_key(action.key())
    }

    /// The number of rewards recorded over all actions.
    pub fn total_pulls(&self) -> (r: u128)
        requires
            self.wf(),
        ensures
            r == self.store_spec().pulls_upto(self.store_spec().arms().len() as int),
    {
        self.store.total_pulls()
    }

    /// Number of registered actions.
    pub fn action_count(&self) -> (r: usize)
        requires
            self.wf(),
        ensures
            r == self.store_spec().arms().len(),
    {
        self.store.len()
    }
}

impl<A: Action, RA: RewardAggregator, R: Reward, C: Context> BanditPolicy<A, R, C> for EpsilonGreedyPolicy<A, RA> {
    open spec fn inv(&self) -> bool {
        self.wf()
    }

    open spec fn chooses(&self, action: A) -> bool {
        self.may_choose(action)
    }

    open spec fn updates_to(&self, context: C, action: A, value: i64, r: Result<(), StateError>, next: Self) -> bool {
        self.records(action.key_spec(), value, r, next)
    }

    open spec fn resets_to(&self, next: Self) -> bool {
        self.cleared_to(next)
    }

    fn choose_action(&self, context: &C) -> (r: A) {
        self.select()
    }

    fn update(&mut self, context: &C, action: &A, reward: &R) -> (r: Result<(), StateError>) {
        self.record(action, reward.value())
    }

    fn reset(&mut self) {
        self.clear();
    }
}

/// The parameters of a Beta distribution with integral shape parameters.
#[derive(Debug, Clone, Copy, PartialEq, Eq, Structural)]
pub struct BetaParams {
    pub alpha: u64,
    pub beta: u64,
}

/// Rewards of at least this many units (half a reward point) count as successes.
pub const SUCCESS_THRESHOLD: i64 = 500_000;

/// The uniform prior.
pub open spec fn uniform_prior() -> BetaParams {
    BetaParams { alpha: 1, beta: 1 }
}

/// The parameters after a reward of `value` units: a success adds one to
/// alpha, a failure one to beta.
pub open spec fn binarized(p: BetaParams, value: i64) -> BetaParams {
    if value >= SUCCESS_THRESHOLD {
        BetaParams { alpha: (p.alpha + 1) as u64, beta: p.beta }
    } else {
        BetaParams { alpha: p.alpha, beta: (p.beta + 1) as u64 }
    }
}

/// Thompson sampling with a Beta posterior per action over binarized rewards.
///
/// Drawing from the Beta distributions is left to the caller, who hands the
/// draws to `select_with_samples`; the generator is seeded from `seed`.
pub struct ThompsonSamplingPolicy<A> {
    action_map: ActionStorage<A>,
    params: Vec<BetaParams>,
    seed: u64,
}

impl<A: Action> ThompsonSamplingPolicy<A> {
    pub closed spec fn actions(&self) -> Seq<A> {
        self.action_map.actions()
    }

    pub closed spec fn keys(&self) -> Seq<u64> {
        self.action_map.keys()
    }

    /// The parameters of each action, in the order of `actions`.
    pub closed spec fn params_spec(&self) -> Seq<BetaParams> {
        self.params@
    }

    pub closed spec fn seed_spec(&self) -> u64 {
        self.seed
    }

    pub open spec fn wf(&self) -> bool {
        &&& self.keys().len() == self.actions().len()
        &&& forall|i: int| 0 <= i < self.keys().len() ==> #[trigger] self.keys()[i] == self.actions()[i].key_spec()
        &&& forall|i: int, j: int| 0 <= i < j < self.keys().len() ==> self.keys()[i] != self.keys()[j]
        &&& self.params_spec().len() == self.actions().len()
        &&& self.actions().len() > 0
        &&& forall|i: int| 0 <= i < self.params_spec().len() ==> #[trigger] self.params_spec()[i].alpha >= 1
            && self.params_spec()[i].beta >= 1
    }

    /// A policy over `initial_actions` with the uniform prior for each;
    /// `seed` seeds the generator used for sampling.
    pub fn new(initial_actions: &[A], seed: u64) -> (r: Result<Self, OctopusError>)
        ensures
            initial_actions@.len() == 0 ==> r is Err && is_invalid_parameter(
                r->Err_0,
                "initial_actions"@,
                "empty"@,
                "non-empty slice of actions"@,
            ),
            initial_actions@.len() > 0 ==> r is Ok && r->Ok_0.wf() && r->Ok_0.seed_spec() == seed
                && (forall|i: int| 0 <= i < r->Ok_0.params_spec().len() ==> #[trigger] r->Ok_0.params_spec()[i]
                == uniform_prior())
                && (forall|k: u64| #[trigger] r->Ok_0.keys().contains(k) <==> prefix_has_key(
                    initial_actions@,
                    initial_actions@.len() as int,
                    k,
                ))
                && (forall|p: int| 0 <= p < r->Ok_0.actions().len() ==> #[trigger] last_with_key(
                    initial_actions@,
                    initial_actions@.len() as int,
                    r->Ok_0.actions()[p],
                )),
    {
        if initial_actions.len() == 0 {
            return Err(empty_actions_error());
        }
        let action_map = match ActionStorage::new(initial_actions) {
            Ok(m) => m,
            Err(e) => return Err(e),
        };
        proof {
            assert(initial_actions@[0].key_spec() == initial_actions@[0].key_spec());
            assert(prefix_has_key(initial_actions@, initial_actions@.len() as int, initial_actions@[0].key_spec()));
            assert(action_map.keys().contains(initial_actions@[0].key_spec()));
        }
        let n = action_map.len();
        let mut params: Vec<BetaParams> = Vec::new();
        let mut i: usize = 0;
        while i < n
            invariant
                i <= n,
                params@.len() == i,
                forall|j: int| 0 <= j < i ==> #[trigger] params@[j] == uniform_prior(),
            decreases n - i,
        {
            params.push(BetaParams { alpha: 1, beta: 1 });
            i = i + 1;
        }
        Ok(ThompsonSamplingPolicy { action_map, params, seed })
    }

    pub fn seed(&self) -> (r: u64)
        ensures
            r == self.seed_spec(),
    {
        self.seed
    }

    /// A copy with the same actions and parameters and the generator seed
    /// `seed`, which the caller draws from an independent source.
    pub fn reseeded(&self, seed: u64) -> (r: Self)
        requires
            self.wf(),
        ensures
            r.wf(),
            r.actions() == self.actions(),
            r.keys() == self.keys(),
            r.params_spec() == self.params_spec(),
            r.seed_spec() == seed,
    {
        let action_map = self.action_map.duplicate();
        ThompsonSamplingPolicy { action_map, params: self.params.clone(), seed }
    }

    /// A copy with the same actions and parameters whose generator seed is
    /// drawn afresh from the thread-local generator, independent of this
    /// policy's seed and parameters.
    pub fn replica(&self) -> (r: Self)
        requires
            self.wf(),
        ensures
            r.wf(),
            r.actions() == self.actions(),
            r.keys() == self.keys(),
            r.params_spec() == self.params_spec(),
            r.seed_spec() < u64::MAX,
    {
        let seed = random_below(u64::MAX);
        self.reseeded(seed)
    }

    /// Number of actions.
    pub fn action_count(&self) -> (r: usize)
        requires
            self.wf(),
        ensures
            r == self.actions().len(),
    {
        self.action_map.len()
    }

    /// The actions, in the order of `params`.
    pub fn get_all_actions(&self) -> (r: Vec<A>)
        requires
            self.wf(),
        ensures
            r@ == self.actions(),
    {
        self.action_map.get_all_actions()
    }

    /// The Beta parameters of every action, in order.
    pub fn params(&self) -> (r: Vec<BetaParams>)
        requires
            self.wf(),
        ensures
            r@ == self.params_spec(),
    {
        self.params.clone()
    }

    /// The Beta parameters of `action`, if it is one of the policy's.
    pub fn params_of(&self, action: &A) -> (r: Option<BetaParams>)
        requires
            self.wf(),
        ensures
            !self.keys().contains(action.key_spec()) ==> r is None,
            self.keys().contains(action.key_spec()) ==> exists|i: int|
                0 <= i < self.keys().len() && self.keys()[i] == action.key_spec() && r == Some(
                    #[trigger] self.params_spec()[i],
                ),
    {
        match self.action_map.find(action.key()) {
            Some(i) => Some(self.params[i]),
            None => None,
        }
    }

    /// Records a reward of `value` units for `action`: at least
    /// `SUCCESS_THRESHOLD` is a success, anything less a failure.
    pub fn update(&mut self, action: &A, value: i64) -> (r: Result<(), StateError>)
        requires
            old(self).wf(),
        ensures
            final(self).wf(),
            final(self).actions() == old(self).actions(),
            final(self).keys() == old(self).keys(),
            final(self).seed_spec() == old(self).seed_spec(),
            !old(self).keys().contains(action.key_spec()) ==> r == Err::<(), StateError>(StateError::ArmNotFound)
                && final(self).params_spec() == old(self).params_spec(),
            old(self).keys().contains(action.key_spec()) ==> exists|i: int|
                0 <= i < old(self).keys().len() && old(self).keys()[i] == action.key_spec() && ({
                    let p = #[trigger] old(self).params_spec()[i];
                    let full = if value >= SUCCESS_THRESHOLD { p.alpha == u64::MAX } else { p.beta == u64::MAX };
                    if full {
                        r == Err::<(), StateError>(StateError::RewardError(RewardError::RewardCalculationFailed))
                            && final(self).params_spec() == old(self).params_spec()
                    } else {
                        r is Ok && final(self).params_spec() == old(self).params_spec().update(i, binarized(p, value))
                    }
                }),
    {
        let i = match self.action_map.find(action.key()) {
            Some(i) => i,
            None => return Err(StateError::ArmNotFound),
        };
        let p = self.params[i];
        let next = if value >= SUCCESS_THRESHOLD {
            if p.alpha == u64::MAX {
                return Err(StateError::RewardError(RewardError::RewardCalculationFailed));
            }
            BetaParams { alpha: p.alpha + 1, beta: p.beta }
        } else {
            if p.beta == u64::MAX {
                return Err(StateError::RewardError(RewardError::RewardCalculationFailed));
            }
            BetaParams { alpha: p.alpha, beta: p.beta + 1 }
        };
        self.params.set(i, next);
        Ok(())
    }

    /// Restores the uniform prior for every action.
    pub fn reset(&mut self)
        requires
            old(self).wf(),
        ensures
            final(self).wf(),
            final(self).actions() == old(self).actions(),
            final(self).keys() == old(self).keys(),
            final(self).seed_spec() == old(self).seed_spec(),
            forall|i: int| 0 <= i < final(self).params_spec().len() ==> #[trigger] final(self).params_spec()[i]
                == uniform_prior(),
    {
        let n = self.params.len();
        let mut i: usize = 0;
        while i < n
            invariant
                old(self).wf(),
                self.action_map.wf(),
                self.actions() == old(self).actions(),
                self.keys() == old(self).keys(),
                self.seed_spec() == old(self).seed_spec(),
                n == self.params_spec().len(),
                n == self.actions().len(),
                n > 0,
                i <= n,
                forall|j: int| 0 <= j < i ==> #[trigger] self.params_spec()[j] == uniform_prior(),
                forall|j: int| 0 <= j < n ==> #[trigger] self.params_spec()[j].alpha >= 1 && self.params_spec()[j].beta >= 1,
            decreases n - i,
        {
            self.params.set(i, BetaParams { alpha: 1, beta: 1 });
            i = i + 1;
        }
    }

    /// The action with the strictly greatest draw, the first on ties.
    /// `samples[i]` is the draw for the `i`-th action, as an order key: a
    /// greater key is a greater draw.
    pub fn select_with_samples(&self, samples: &[u64]) -> (r: A)
        requires
            self.wf(),
            samples@.len() == self.actions().len(),
        ensures
            exists|b: int| {
                &&& 0 <= b < samples@.len()
                &&& forall|j: int| 0 <= j < samples@.len() ==> #[trigger] samples@[j] <= samples@[b]
                &&& forall|j: int| 0 <= j < b ==> #[trigger] samples@[j] < samples@[b]
                &&& r == self.actions()[b]
            },
    {
        let mut best: usize = 0;
        let mut i: usize = 1;
        while i < samples.len()
            invariant
                1 <= i <= samples@.len(),
                best < i,
                forall|j: int| 0 <= j < i ==> #[trigger] samples@[j] <= samples@[best as int],
                forall|j: int| 0 <= j < best ==> #[trigger] samples@[j] < samples@[best as int],
            decreases samples@.len() - i,
        {
            if samples[i] > samples[best] {
                best = i;
            }
            i = i + 1;
        }
        self.action_map.action_at(best).duplicate()
    }
}

/// Number of rewards in `rs` that count as successes.
pub open spec fn successes(rs: Seq<i64>) -> nat
    decreases rs.len(),
{
    if rs.len() == 0 {
        0
    } else {
        successes(rs.drop_last()) + if rs.last() >= SUCCESS_THRESHOLD { 1nat } else { 0nat }
    }
}

/// The parameters after binarizing each reward of `rs` in turn, from `p`.
pub open spec fn binarized_all(p: BetaParams, rs: Seq<i64>) -> BetaParams
    decreases rs.len(),
{
    if rs.len() == 0 {
        p
    } else {
        binarized(binarized_all(p, rs.drop_last()), rs.last())
    }
}

/// From the uniform prior, a sequence of rewards leaves alpha at one plus
/// the number of successes and beta at one plus the number of failures.
pub proof fn binarized_counts(rs: Seq<i64>)
    requires
        rs.len() < u64::MAX,
    ensures
        binarized_all(uniform_prior(), rs).alpha == 1 + successes(rs),
        binarized_all(uniform_prior(), rs).beta == 1 + (rs.len() - successes(rs)),
    decreases rs.len(),
{
    if rs.len() > 0 {
        binarized_counts(rs.drop_last());
        lemma_successes_bound(rs.drop_last());
    }
}

proof fn lemma_successes_bound(rs: Seq<i64>)
    ensures
        successes(rs) <= rs.len(),
    decreases rs.len(),
{
    if rs.len() > 0 {
        lemma_successes_bound(rs.drop_last());
    }
}

} // verus!
