use vstd::prelude::*;
use crate::entities::Reward;
use crate::error::StateError;
use crate::environment::Environment;
use crate::metrics::SimulationResults;
use crate::policy::BanditPolicy;

verus! {

/// Sum of the first `n` values of `s`.
pub open spec fn sum_prefix(s: Seq<i64>, n: int) -> int
    decreases n,
{
    if n <= 0 || s.len() == 0 {
        0
    } else if n > s.len() {
        sum_prefix(s, s.len() as int)
    } else {
        sum_prefix(s, n - 1) + s[n - 1]
    }
}

/// Whether `r` records an episode whose optimal reward at each step was
/// `optimal`: totals are the sums of the steps, and the regret after each
/// step is the optimal total so far minus the obtained total so far.
pub open spec fn records_episode(r: SimulationResults, optimal: Seq<i64>) -> bool {
    let n = r.steps_rewards@.len() as int;
    &&& r.steps_regret@.len() == n
    &&& optimal.len() == n
    &&& r.cumulative_reward == sum_prefix(r.steps_rewards@, n)
    &&& r.cumulative_optimal_reward == sum_prefix(optimal, n)
    &&& forall|t: int| 0 <= t < n ==> #[trigger] r.steps_regret@[t] == sum_prefix(optimal, t + 1) - sum_prefix(
        r.steps_rewards@,
        t + 1,
    )
}

/// Most steps an episode can have: a machine cannot hold longer series.
pub open spec fn max_steps() -> int {
    0x1000_0000_0000_0000
}

proof fn lemma_sum_prefix_bound(s: Seq<i64>, n: int)
    requires
        0 <= n <= s.len(),
    ensures
        -(n * 0x8000_0000_0000_0000) <= sum_prefix(s, n) <= n * 0x7fff_ffff_ffff_ffff,
    decreases n,
{
    if n > 0 {
        lemma_sum_prefix_bound(s, n - 1);
    }
}

proof fn lemma_sum_prefix_push(s: Seq<i64>, v: i64, n: int)
    requires
        0 <= n <= s.len(),
    ensures
        sum_prefix(s.push(v), n) == sum_prefix(s, n),
    decreases n,
{
    if n > 0 {
        lemma_sum_prefix_push(s, v, n - 1);
    }
}

proof fn lemma_sum_prefix_push_all(s: Seq<i64>, v: i64)
    ensures
        forall|n: int| 0 <= n <= s.len() ==> #[trigger] sum_prefix(s.push(v), n) == sum_prefix(s, n),
{
    assert forall|n: int| 0 <= n <= s.len() implies #[trigger] sum_prefix(s.push(v), n) == sum_prefix(s, n) by {
        lemma_sum_prefix_push(s, v, n);
    }
}

/// Whether one step went as the simulator runs it: in `context` the policy
/// `p` chose `action`, the environment's reward for it was `value` and was
/// recorded successfully, leaving the policy as `next`, and `optimal` was
/// the greatest reward value among `all`.
pub open spec fn step_ok<A, R: Reward, C, P: BanditPolicy<A, R, C>, E: Environment<A, R, C>>(
    env: E,
    all: Seq<A>,
    p: P,
    next: P,
    context: C,
    action: A,
    value: i64,
    optimal: i64,
) -> bool {
    &&& p.chooses(action)
    &&& p.updates_to(context, action, value, Ok(()), next)
    &&& value == env.reward_value(action, context)
    &&& exists|i: int| 0 <= i < all.len() && optimal == #[trigger] env.reward_value(all[i], context)
    &&& forall|j: int| 0 <= j < all.len() ==> #[trigger] env.reward_value(all[j], context) <= optimal
}

/// Whether `r` records an episode of `env` over the candidates `all` that
/// went through the contexts, choices, optimal values and successive
/// policies given.
pub open spec fn episode_trace<A, R: Reward, C, P: BanditPolicy<A, R, C>, E: Environment<A, R, C>>(
    env: E,
    all: Seq<A>,
    policies: Seq<P>,
    contexts: Seq<C>,
    actions: Seq<A>,
    optimal: Seq<i64>,
    r: SimulationResults,
) -> bool {
    let n = r.steps_rewards@.len() as int;
    &&& policies.len() == n + 1
    &&& contexts.len() == n
    &&& actions.len() == n
    &&& records_episode(r, optimal)
    &&& forall|t: int| 0 <= t < n ==> #[trigger] step_ok::<A, R, C, P, E>(
        env,
        all,
        policies[t],
        policies[t + 1],
        contexts[t],
        actions[t],
        r.steps_rewards@[t],
        optimal[t],
    )
}

proof fn lemma_prefix_gap(optimal: Seq<i64>, rewards: Seq<i64>, n: int)
    requires
        0 <= n <= optimal.len(),
        optimal.len() == rewards.len(),
        forall|t: int| 0 <= t < optimal.len() ==> #[trigger] rewards[t] <= optimal[t],
    ensures
        sum_prefix(rewards, n) <= sum_prefix(optimal, n),
        n > 0 ==> sum_prefix(optimal, n) - sum_prefix(rewards, n) >= sum_prefix(optimal, n - 1) - sum_prefix(
            rewards,
            n - 1,
        ),
    decreases n,
{
    if n > 0 {
        lemma_prefix_gap(optimal, rewards, n - 1);
        assert(rewards[n - 1] <= optimal[n - 1]);
    }
}

/// When every chosen action is one of the candidates, the regret recorded
/// after each step is never negative and never decreases.
pub proof fn regret_never_negative<A, R: Reward, C, P: BanditPolicy<A, R, C>, E: Environment<A, R, C>>(
    env: E,
    all: Seq<A>,
    policies: Seq<P>,
    contexts: Seq<C>,
    actions: Seq<A>,
    optimal: Seq<i64>,
    r: SimulationResults,
)
    requires
        episode_trace::<A, R, C, P, E>(env, all, policies, contexts, actions, optimal, r),
        forall|t: int| 0 <= t < actions.len() ==> all.contains(#[trigger] actions[t]),
    ensures
        forall|t: int| 0 <= t < r.steps_regret@.len() ==> #[trigger] r.steps_regret@[t] >= 0,
        forall|t: int| 0 < t < r.steps_regret@.len() ==> #[trigger] r.steps_regret@[t] >= r.steps_regret@[t - 1],
{
    let n = r.steps_rewards@.len() as int;
    assert forall|t: int| 0 <= t < n implies #[trigger] r.steps_rewards@[t] <= optimal[t] by {
        assert(step_ok::<A, R, C, P, E>(
            env,
            all,
            policies[t],
            policies[t + 1],
            contexts[t],
            actions[t],
            r.steps_rewards@[t],
            optimal[t],
        ));
        assert(all.contains(actions[t]));
        let j = choose|j: int| 0 <= j < all.len() && all[j] == actions[t];
        assert(env.reward_value(all[j], contexts[t]) <= optimal[t]);
    }
    assert forall|t: int| 0 <= t < r.steps_regret@.len() implies #[trigger] r.steps_regret@[t] >= 0 by {
        lemma_prefix_gap(optimal, r.steps_rewards@, t + 1);
    }
    assert forall|t: int| 0 < t < r.steps_regret@.len() implies #[trigger] r.steps_regret@[t] >= r.steps_regret@[t - 1] by {
        lemma_prefix_gap(optimal, r.steps_rewards@, t + 1);
        assert(r.steps_regret@[t - 1] == sum_prefix(optimal, t) - sum_prefix(r.steps_rewards@, t));
    }
}

/// Whether an episode of `env` over the candidates `all` failed at step
/// `rewards.len()`: the steps before it went as `step_ok` says, with the
/// rewards and optimal values given; then the policy `policies[t]` chose
/// `actions[t]` in `contexts[t]`, and recording the environment's reward for
/// it failed with `e`, leaving the policy as `last`.
pub open spec fn episode_failure<A, R: Reward, C, P: BanditPolicy<A, R, C>, E: Environment<A, R, C>>(
    env: E,
    all: Seq<A>,
    policies: Seq<P>,
    contexts: Seq<C>,
    actions: Seq<A>,
    rewards: Seq<i64>,
    optimal: Seq<i64>,
    e: StateError,
    last: P,
) -> bool {
    let t = rewards.len() as int;
    &&& policies.len() == t + 1
    &&& contexts.len() == t + 1
    &&& actions.len() == t + 1
    &&& optimal.len() == t
    &&& forall|s: int| 0 <= s < t ==> #[trigger] step_ok::<A, R, C, P, E>(
        env,
        all,
        policies[s],
        policies[s + 1],
        contexts[s],
        actions[s],
        rewards[s],
        optimal[s],
    )
    &&& policies[t].chooses(actions[t])
    &&& policies[t].updates_to(
        contexts[t],
        actions[t],
        env.reward_value(actions[t], contexts[t]),
        Err(e),
        last,
    )
}

/// Drives a policy against an environment and records rewards and regret.
pub struct Simulator<P, E> {
    policy: P,
    environment: E,
}

impl<P, E> Simulator<P, E> {
    pub closed spec fn policy_spec(&self) -> P {
        self.policy
    }

    pub closed spec fn environment_spec(&self) -> E {
        self.environment
    }

    pub fn new(policy: P, environment: E) -> (r: Self)
        ensures
            r.policy_spec() == policy,
            r.environment_spec() == environment,
    {
        Simulator { policy, environment }
    }

    /// The policy, with what it learned so far.
    pub fn policy(&self) -> (r: &P)
        ensures
            *r == self.policy_spec(),
    {
        &self.policy
    }

    /// Runs `num_steps` steps. Each step fetches a context, lets the policy
    /// choose, obtains the reward and feeds it back to the policy, then adds
    /// the best reward among `all_actions` to the optimal total. A policy
    /// that fails to record a reward ends the episode with its error.
    pub fn run_episode<A, R: Reward, C>(&mut self, num_steps: usize, all_actions: &[A]) -> (r: Result<SimulationResults, StateError>)
        where
            P: BanditPolicy<A, R, C>,
            E: Environment<A, R, C>,
        requires
            old(self).policy_spec().inv(),
            num_steps < max_steps(),
            all_actions@.len() > 0,
        ensures
            final(self).policy_spec().inv(),
            final(self).environment_spec() == old(self).environment_spec(),
            num_steps == 0 ==> r is Ok && r->Ok_0.steps_rewards@.len() == 0 && r->Ok_0.steps_regret@.len() == 0
                && r->Ok_0.cumulative_reward == 0 && r->Ok_0.cumulative_optimal_reward == 0,
            r is Ok ==> r->Ok_0.steps_rewards@.len() == num_steps,
            r is Ok ==> exists|policies: Seq<P>, contexts: Seq<C>, actions: Seq<A>, optimal: Seq<i64>| {
                &&& #[trigger] episode_trace::<A, R, C, P, E>(
                    old(self).environment_spec(),
                    all_actions@,
                    policies,
                    contexts,
                    actions,
                    optimal,
                    r->Ok_0,
                )
                &&& policies[0] == old(self).policy_spec()
                &&& policies[num_steps as int] == final(self).policy_spec()
            },
            r is Err ==> exists|
                policies: Seq<P>,
                contexts: Seq<C>,
                actions: Seq<A>,
                rewards: Seq<i64>,
                optimal: Seq<i64>,
            | {
                &&& #[trigger] episode_failure::<A, R, C, P, E>(
                    old(self).environment_spec(),
                    all_actions@,
                    policies,
                    contexts,
                    actions,
                    rewards,
                    optimal,
                    r->Err_0,
                    final(self).policy_spec(),
                )
                &&& policies[0] == old(self).policy_spec()
                &&& rewards.len() < num_steps
            },
    {
        let mut cumulative_reward: i128 = 0;
        let mut cumulative_optimal_reward: i128 = 0;
        let mut steps_rewards: Vec<i64> = Vec::new();
        let mut steps_regret: Vec<i128> = Vec::new();
        let ghost mut optimal: Seq<i64> = Seq::empty();
        let ghost mut policies: Seq<P> = seq![self.policy];
        let ghost mut contexts: Seq<C> = Seq::empty();
        let ghost mut actions: Seq<A> = Seq::empty();
        let mut step: usize = 0;
        while step < num_steps
            invariant
                self.policy_spec().inv(),
                self.environment_spec() == old(self).environment_spec(),
                policies.len() == step + 1,
                policies[0] == old(self).policy_spec(),
                policies[step as int] == self.policy_spec(),
                contexts.len() == step,
                actions.len() == step,
                forall|t: int| 0 <= t < step ==> #[trigger] step_ok::<A, R, C, P, E>(
                    self.environment_spec(),
                    all_actions@,
                    policies[t],
                    policies[t + 1],
                    contexts[t],
                    actions[t],
                    steps_rewards@[t],
                    optimal[t],
                ),
                step <= num_steps < max_steps(),
                all_actions@.len() > 0,
                steps_rewards@.len() == step,
                steps_regret@.len() == step,
                optimal.len() == step,
                cumulative_reward == sum_prefix(steps_rewards@, step as int),
                cumulative_optimal_reward == sum_prefix(optimal, step as int),
                forall|t: int| 0 <= t < step ==> #[trigger] steps_regret@[t] == sum_prefix(optimal, t + 1)
                    - sum_prefix(steps_rewards@, t + 1),
            decreases num_steps - step,
        {
            let ghost p_before = self.policy;
            let context = self.environment.get_context();
            let action = self.policy.choose_action(&context);
            let reward = self.environment.get_reward(&action, &context);
            let ghost p_chose = self.policy;
            let recorded = self.policy.update(&context, &action, &reward);
            if recorded.is_err() {
                let e = recorded.unwrap_err();
                let res: Result<SimulationResults, StateError> = Err(e);
                proof {
                    assert(recorded == Err::<(), StateError>(e));
                    assert(episode_failure::<A, R, C, P, E>(
                        old(self).environment_spec(),
                        all_actions@,
                        policies,
                        contexts.push(context),
                        actions.push(action),
                        steps_rewards@,
                        optimal,
                        res->Err_0,
                        self.policy_spec(),
                    ));
                }
                return res;
            }
            assert(recorded == Ok::<(), StateError>(recorded->Ok_0));
            let value = reward.value();
            let best = self.environment.get_optimal_reward(&context, all_actions);
            let best_value = best.value();
            proof {
                lemma_sum_prefix_bound(steps_rewards@, step as int);
                lemma_sum_prefix_bound(optimal, step as int);
                assert(step * 0x8000_0000_0000_0000 <= max_steps() * 0x8000_0000_0000_0000) by (nonlinear_arith)
                    requires step <= max_steps();
                assert(step * 0x7fff_ffff_ffff_ffff <= max_steps() * 0x7fff_ffff_ffff_ffff) by (nonlinear_arith)
                    requires step <= max_steps();
                lemma_sum_prefix_push_all(steps_rewards@, value);
                lemma_sum_prefix_push_all(optimal, best_value);
            }
            let ghost prev_rewards = steps_rewards@;
            let ghost prev_optimal = optimal;
            cumulative_reward = cumulative_reward + value as i128;
            cumulative_optimal_reward = cumulative_optimal_reward + best_value as i128;
            steps_rewards.push(value);
            steps_regret.push(cumulative_optimal_reward - cumulative_reward);
            proof {
                assert(p_before.chooses(action));
                assert(p_chose == p_before);
                assert(p_before.updates_to(context, action, value, recorded, self.policy));
                assert(value == self.environment_spec().reward_value(action, context));
                assert(step_ok::<A, R, C, P, E>(
                    self.environment_spec(),
                    all_actions@,
                    p_before,
                    self.policy,
                    context,
                    action,
                    value,
                    best_value,
                ));
                policies = policies.push(self.policy);
                contexts = contexts.push(context);
                actions = actions.push(action);
                assert forall|t: int| 0 <= t < step + 1 implies #[trigger] step_ok::<A, R, C, P, E>(
                    self.environment_spec(),
                    all_actions@,
                    policies[t],
                    policies[t + 1],
                    contexts[t],
                    actions[t],
                    steps_rewards@[t],
                    optimal.push(best_value)[t],
                ) by {
                    if t < step {
                        assert(steps_rewards@[t] == prev_rewards[t]);
                    }
                }
                optimal = optimal.push(best_value);
                assert(steps_rewards@ == prev_rewards.push(value));
                assert(sum_prefix(steps_rewards@, step + 1) == sum_prefix(steps_rewards@, step as int) + value);
                assert(sum_prefix(optimal, step + 1) == sum_prefix(optimal, step as int) + best_value);
            }
            step = step + 1;
        }
        let r = SimulationResults::new(cumulative_reward, cumulative_optimal_reward, steps_rewards, steps_regret);
        let res: Result<SimulationResults, StateError> = Ok(r);
        assert(records_episode(res->Ok_0, optimal));
        assert(episode_trace::<A, R, C, P, E>(
            old(self).environment_spec(),
            all_actions@,
            policies,
            contexts,
            actions,
            optimal,
            res->Ok_0,
        ));
        res
    }
}

} // verus!
