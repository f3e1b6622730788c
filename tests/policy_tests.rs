use octopus::entities::{Action, DummyContext, NumericAction, Reward};
use octopus::error::OctopusError;
use octopus::policies::{BetaParams, EpsilonGreedyPolicy, ThompsonSamplingPolicy};
use octopus::policy::BanditPolicy;
use octopus::ratio::Ratio;
use octopus::reward::MeanAggregator;
use octopus::reward::REWARD_SCALE;
use octopus::state::Keyed;
use rand::rngs::StdRng;
use rand::SeedableRng;
use rand_distr::{Beta, Distribution};
use std::collections::HashMap;

#[derive(Debug, Clone, PartialEq, Eq, Hash)]
struct I32Action {
    id: u32,
    value: i32,
    name: &'static str,
}

impl Keyed for I32Action {
    fn key_spec(&self) -> u64 {
        self.id as u64
    }

    fn key(&self) -> u64 {
        self.id as u64
    }

    fn duplicate(&self) -> Self {
        self.clone()
    }
}

impl Action for I32Action {
    type ValueType = i32;
    fn name_of(&self) -> String {
        self.name.to_string()
    }
    fn value_of(&self) -> i32 {
        self.value
    }
    fn id(&self) -> u32 {
        self.id
    }
    fn name(&self) -> String {
        self.name.to_string()
    }
    fn value(&self) -> i32 {
        self.value
    }
}

#[derive(Debug, Clone, PartialEq)]
struct DummyReward(f64);

impl Reward for DummyReward {
    fn value_spec(&self) -> i64 {
        self.value()
    }

    fn value(&self) -> i64 {
        (self.0 * REWARD_SCALE as f64).round() as i64
    }
}

fn points(r: Ratio) -> f64 {
    r.num as f64 / r.den as f64 / REWARD_SCALE as f64
}

fn sum_points(p: &Eps, a: &I32Action) -> f64 {
    let est = p.estimate(a).unwrap();
    points(est) * p.pulls(a).unwrap() as f64
}

fn act(id: u32, value: i32, name: &'static str) -> I32Action {
    I32Action { id, value, name }
}

type Eps = EpsilonGreedyPolicy<I32Action, MeanAggregator>;

fn update(p: &mut Eps, a: &I32Action, r: f64) {
    BanditPolicy::<I32Action, DummyReward, DummyContext>::update(p, &DummyContext, a, &DummyReward(r)).unwrap();
}

fn pick_action(p: &Eps) -> I32Action {
    BanditPolicy::<I32Action, DummyReward, DummyContext>::choose_action(p, &DummyContext)
}

#[test]
fn test_epsilon_greedy_init_success() {
    let actions = vec![act(0, 0, "Action A"), act(1, 10, "Action B"), act(2, 20, "Action C")];
    let policy = Eps::new(100_000, &actions).unwrap();

    assert_eq!(policy.epsilon(), 100_000);
    assert_eq!(policy.action_count(), 3);
    assert_eq!(policy.total_pulls(), 0);

    for action in actions {
        assert_eq!(policy.pulls(&action).unwrap(), 0);
        assert_eq!(sum_points(&policy, &action), 0.0);
    }
}

#[test]
fn test_epsilon_greedy_init_invalid_epsilon() {
    let actions = vec![act(0, 0, "Action A")];

    let error_high = Eps::new(1_500_000, &actions).err().unwrap();
    assert_eq!(
        error_high,
        OctopusError::InvalidParameter {
            parameter_name: "epsilon".to_string(),
            value: "1.5".to_string(),
            expected_range: "0.0 to 1.0 inclusive".to_string(),
        }
    );

    let error_low = Eps::new(-100_000, &actions).err().unwrap();
    assert_eq!(
        error_low,
        OctopusError::InvalidParameter {
            parameter_name: "epsilon".to_string(),
            value: "-0.1".to_string(),
            expected_range: "0.0 to 1.0 inclusive".to_string(),
        }
    );
}

#[test]
fn test_epsilon_greedy_update_and_average() {
    let actions = vec![act(0, 0, "Action A"), act(1, 10, "Action B")];
    let mut policy = Eps::new(0, &actions).unwrap();

    let action_a = act(0, 10, "Action A");
    let action_b = act(1, 20, "Action B");

    update(&mut policy, &action_a, 10.0);
    update(&mut policy, &action_a, 20.0);

    update(&mut policy, &action_b, 5.0);

    assert_eq!(policy.total_pulls(), 3);

    assert_eq!(policy.pulls(&action_a).unwrap(), 2);
    assert_eq!(sum_points(&policy, &action_a), 30.0);
    assert_eq!(points(policy.estimate(&action_a).unwrap()), 15.0);

    assert_eq!(policy.pulls(&action_b).unwrap(), 1);
    assert_eq!(sum_points(&policy, &action_b), 5.0);
    assert_eq!(points(policy.estimate(&action_b).unwrap()), 5.0);
}

#[test]
fn test_epsilon_greedy_exploitation() {
    let actions = vec![act(0, 10, "Bad Action"), act(1, 20, "Good Action"), act(2, 30, "Mediocre Action")];
    let mut policy = Eps::new(0, &actions).unwrap();

    update(&mut policy, &act(0, 10, "Bad Action"), 1.0);
    update(&mut policy, &act(1, 20, "Good Action"), 10.0);
    update(&mut policy, &act(1, 10, "Good Action"), 12.0);
    update(&mut policy, &act(2, 10, "Mediocre Action"), 5.0);

    assert_eq!(points(policy.estimate(&act(0, 0, "")).unwrap()), 1.0);
    assert_eq!(points(policy.estimate(&act(1, 0, "")).unwrap()), 11.0);
    assert_eq!(points(policy.estimate(&act(2, 0, "")).unwrap()), 5.0);

    for _ in 0..100 {
        let chosen_action = pick_action(&policy);
        assert_eq!(chosen_action, act(1, 20, "Good Action"));
    }
}

#[test]
fn test_epsilon_greedy_exploration() {
    let actions = vec![act(0, 10, "Action A"), act(1, 10, "Action B")];
    let policy = Eps::new(1_000_000, &actions).unwrap();

    let mut counts_chosen: HashMap<u32, u64> = HashMap::new();
    counts_chosen.insert(0, 0);
    counts_chosen.insert(1, 0);

    let num_trials = 1000;
    for _ in 0..num_trials {
        let chosen = pick_action(&policy);
        *counts_chosen.get_mut(&chosen.id()).unwrap() += 1;
    }

    let chosen_a = *counts_chosen.get(&0).unwrap();
    let chosen_b = *counts_chosen.get(&1).unwrap();

    let expected_per_action = num_trials as f64 / actions.len() as f64;
    let tolerance = expected_per_action * 0.2;

    assert!((chosen_a as f64 - expected_per_action).abs() < tolerance, "Chosen A: {}", chosen_a);
    assert!((chosen_b as f64 - expected_per_action).abs() < tolerance, "Chosen B: {}", chosen_b);
    assert_eq!(chosen_a + chosen_b, num_trials as u64);
}

#[test]
fn test_epsilon_greedy_reset() {
    let actions = vec![act(0, 10, "Action A"), act(1, 10, "Action B")];
    let mut policy = Eps::new(1_000_000, &actions).unwrap();

    update(&mut policy, &act(0, 10, "Action A"), 10.0);
    update(&mut policy, &act(1, 10, "Action B"), 20.0);

    assert_eq!(policy.total_pulls(), 2);
    assert_eq!(policy.pulls(&act(0, 0, "")).unwrap(), 1);
    assert_eq!(policy.pulls(&act(1, 0, "")).unwrap(), 1);
    assert_eq!(sum_points(&policy, &act(0, 0, "")), 10.0);
    assert_eq!(sum_points(&policy, &act(1, 0, "")), 20.0);

    BanditPolicy::<I32Action, DummyReward, DummyContext>::reset(&mut policy);
    assert_eq!(policy.total_pulls(), 0);
    for action in &actions {
        assert_eq!(policy.pulls(action).unwrap(), 0);
        assert_eq!(sum_points(&policy, action), 0.0);
    }
}

#[test]
fn epsilon_greedy_rejects_empty_actions() {
    let actions: Vec<I32Action> = vec![];
    let err = Eps::new(0, &actions).err().unwrap();
    assert_eq!(
        err,
        OctopusError::InvalidParameter {
            parameter_name: "initial_actions".to_string(),
            value: "empty".to_string(),
            expected_range: "non-empty slice of actions".to_string(),
        }
    );
}

#[test]
fn epsilon_greedy_update_of_unknown_action_fails() {
    let actions = vec![act(0, 10, "Action A")];
    let mut policy = Eps::new(0, &actions).unwrap();
    let r = BanditPolicy::<I32Action, DummyReward, DummyContext>::update(
        &mut policy,
        &DummyContext,
        &act(7, 0, "stranger"),
        &DummyReward(1.0),
    );
    assert_eq!(r, Err(octopus::error::StateError::ArmNotFound));
    assert_eq!(policy.total_pulls(), 0);
}

type Ts = ThompsonSamplingPolicy<NumericAction<i32>>;

fn generator(seed: u64) -> StdRng {
    let mut bytes = [0u8; 32];
    bytes[..8].copy_from_slice(&seed.to_le_bytes());
    StdRng::from_seed(bytes)
}

fn draws(policy: &Ts, rng: &mut StdRng) -> Vec<u64> {
    policy
        .params()
        .iter()
        .map(|p| Beta::new(p.alpha as f64, p.beta as f64).unwrap().sample(rng).to_bits())
        .collect()
}

fn params(policy: &Ts, a: &NumericAction<i32>) -> BetaParams {
    policy.params_of(a).unwrap()
}

#[test]
fn test_thompson_init_success() {
    let actions = vec![NumericAction::new(10i32, "A"), NumericAction::new(20i32, "B")];
    let policy = Ts::new(&actions, 42).unwrap();
    assert_eq!(policy.params().len(), 2);
    assert_eq!(policy.action_count(), 2);
    for a in actions {
        assert_eq!(params(&policy, &a).alpha, 1);
        assert_eq!(params(&policy, &a).beta, 1);
    }
}

#[test]
fn test_thompson_init_empty_error() {
    let actions: Vec<NumericAction<i32>> = vec![];
    let err = Ts::new(&actions, 42).err().unwrap();
    assert_eq!(
        err,
        OctopusError::InvalidParameter {
            parameter_name: "initial_actions".to_string(),
            value: "empty".to_string(),
            expected_range: "non-empty slice of actions".to_string()
        }
    );
}

#[test]
fn test_thompson_choose_action_does_not_panic() {
    let actions = vec![NumericAction::new(10i32, "A"), NumericAction::new(20i32, "B")];
    let policy = Ts::new(&actions, 12345).unwrap();
    let mut rng = generator(policy.seed());
    let samples = draws(&policy, &mut rng);
    let action = policy.select_with_samples(&samples);
    assert!(actions.contains(&action));
}

#[test]
fn test_thompson_update_modifies_params() {
    let actions = vec![NumericAction::with_id(1, 10i32, "A"), NumericAction::with_id(2, 20i32, "B")];
    let mut policy = Ts::new(&actions, 777).unwrap();
    let a = actions.get(0).unwrap();

    policy.update(a, DummyReward(1.0).value()).unwrap();
    assert_eq!(params(&policy, a).alpha, 2);
    assert_eq!(params(&policy, a).beta, 1);

    policy.update(a, DummyReward(0.0).value()).unwrap();
    assert_eq!(params(&policy, a).alpha, 2);
    assert_eq!(params(&policy, a).beta, 2);
}

#[test]
fn test_thompson_reset() {
    let actions = vec![NumericAction::with_id(1, 10i32, "A"), NumericAction::with_id(2, 20i32, "B")];
    let mut policy = Ts::new(&actions, 42).unwrap();
    let a = actions.get(0).unwrap();

    policy.update(a, DummyReward(1.0).value()).unwrap();
    policy.update(a, DummyReward(0.0).value()).unwrap();
    assert_ne!(params(&policy, a).alpha, 1);
    assert_ne!(params(&policy, a).beta, 1);

    policy.reset();
    for p in policy.params() {
        assert_eq!(p.alpha, 1);
        assert_eq!(p.beta, 1);
    }
}

#[test]
fn test_thompson_sampling_is_reproducible() {
    let actions = vec![NumericAction::new(10i32, "A"), NumericAction::new(20i32, "B")];

    let policy1 = Ts::new(&actions, 1234).unwrap();
    let policy2 = Ts::new(&actions, 1234).unwrap();

    let chosen1 = policy1.select_with_samples(&draws(&policy1, &mut generator(policy1.seed())));
    let chosen2 = policy2.select_with_samples(&draws(&policy2, &mut generator(policy2.seed())));

    assert_eq!(chosen1, chosen2, "Same seed should produce same result");
}

#[test]
fn thompson_binarizes_reward_sequence() {
    let actions = vec![NumericAction::with_id(3, 1i32, "only")];
    let mut policy = Ts::new(&actions, 1).unwrap();
    let a = &actions[0];
    policy.update(a, DummyReward(2.0).value()).unwrap();
    policy.reset();
    assert_eq!(params(&policy, a), BetaParams { alpha: 1, beta: 1 });
    for r in [1.0, 0.2, 0.7] {
        policy.update(a, DummyReward(r).value()).unwrap();
    }
    assert_eq!(params(&policy, a), BetaParams { alpha: 3, beta: 2 });
}

#[test]
fn thompson_threshold_is_inclusive() {
    let actions = vec![NumericAction::with_id(3, 1i32, "only")];
    let mut policy = Ts::new(&actions, 1).unwrap();
    let a = &actions[0];
    policy.update(a, 500_000).unwrap();
    policy.update(a, 499_999).unwrap();
    assert_eq!(params(&policy, a), BetaParams { alpha: 2, beta: 2 });
}

#[test]
fn thompson_selection_keeps_first_on_ties() {
    let actions = vec![
        NumericAction::with_id(1, 1i32, "a"),
        NumericAction::with_id(2, 2i32, "b"),
        NumericAction::with_id(3, 3i32, "c"),
    ];
    let policy = Ts::new(&actions, 9).unwrap();
    assert_eq!(policy.select_with_samples(&[5, 9, 9]).id(), 2);
    assert_eq!(policy.select_with_samples(&[9, 9, 9]).id(), 1);
    assert_eq!(policy.select_with_samples(&[1, 2, 3]).id(), 3);
}

#[test]
fn thompson_update_of_unknown_action_fails() {
    let actions = vec![NumericAction::with_id(1, 1i32, "a")];
    let mut policy = Ts::new(&actions, 9).unwrap();
    let stranger = NumericAction::with_id(8, 1i32, "x");
    assert_eq!(policy.update(&stranger, 1), Err(octopus::error::StateError::ArmNotFound));
    assert!(policy.params_of(&stranger).is_none());
}

#[test]
fn policy_starts_from_fresh_prototype() {
    let actions = vec![act(0, 1, "a"), act(1, 2, "b")];
    let used = MeanAggregator { count: 5, total: 9 };
    let policy = Eps::with_aggregator(0, &actions, &used).unwrap();
    for a in &actions {
        assert_eq!(policy.pulls(a).unwrap(), 0);
        assert_eq!(policy.estimate(a).unwrap(), Ratio { num: 0, den: 1 });
    }
}

#[test]
fn policy_skips_duplicate_identifiers() {
    let actions = vec![act(4, 1, "first"), act(4, 2, "second"), act(5, 3, "third")];
    let policy = Eps::new(0, &actions).unwrap();
    assert_eq!(policy.action_count(), 2);
    assert_eq!(pick_action(&policy), act(5, 3, "third"));
}

#[test]
fn duplicated_policy_is_independent() {
    let actions = vec![act(0, 1, "a"), act(1, 2, "b")];
    let mut policy = Eps::new(0, &actions).unwrap();
    update(&mut policy, &actions[0], 3.0);
    let copy = policy.duplicate();
    update(&mut policy, &actions[0], 5.0);
    assert_eq!(copy.pulls(&actions[0]).unwrap(), 1);
    assert_eq!(policy.pulls(&actions[0]).unwrap(), 2);
    assert_eq!(copy.epsilon(), 0);
}

#[test]
fn reseeded_thompson_keeps_parameters() {
    let actions = vec![NumericAction::with_id(1, 10i32, "A"), NumericAction::with_id(2, 20i32, "B")];
    let mut policy = Ts::new(&actions, 5).unwrap();
    policy.update(&actions[1], REWARD_SCALE).unwrap();
    let copy = policy.reseeded(99);
    assert_eq!(copy.seed(), 99);
    assert_eq!(policy.seed(), 5);
    assert_eq!(copy.params(), policy.params());
    assert_eq!(params(&copy, &actions[1]), BetaParams { alpha: 2, beta: 1 });
}

#[test]
fn replica_keeps_parameters_with_fresh_seed() {
    let actions = vec![NumericAction::with_id(1, 10i32, "A"), NumericAction::with_id(2, 20i32, "B")];
    let mut policy = Ts::new(&actions, 5).unwrap();
    policy.update(&actions[0], 0).unwrap();
    let copy = policy.replica();
    assert_eq!(copy.params(), policy.params());
    assert_eq!(copy.get_all_actions(), policy.get_all_actions());
    assert!(copy.seed() < u64::MAX);
}

#[test]
fn epsilon_greedy_draws_pick_explored_action() {
    let actions = vec![act(0, 1, "a"), act(1, 2, "b"), act(2, 3, "c")];
    let policy = Eps::new(500_000, &actions).unwrap();
    assert_eq!(policy.select_with(499_999, 4), actions[1]);
    assert_eq!(policy.select_with(500_000, 4), actions[2]);
}

#[test]
fn with_id_reads_back() {
    let a = NumericAction::with_id(7, 42i32, "seven");
    assert_eq!(a.id(), 7);
    assert_eq!(a.value(), 42);
    assert_eq!(a.name(), "seven".to_string());
}
