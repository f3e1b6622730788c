use octopus::entities::{Action, DummyContext, NumericAction, Reward};
use octopus::environment::Environment;
use octopus::metrics::{analyze_results, SimulationResults};
use octopus::policies::EpsilonGreedyPolicy;
use octopus::ratio::Ratio;
use octopus::reward::REWARD_SCALE;
use octopus::simulator::Simulator;
use rayon::iter::{IntoParallelIterator, ParallelIterator};

#[derive(Debug, Clone, PartialEq)]
struct DummyReward {
    value: f64,
}

impl DummyReward {
    fn new(reward: f64) -> Self {
        Self { value: reward }
    }
}

impl Reward for DummyReward {
    fn value_spec(&self) -> i64 {
        self.value()
    }

    fn value(&self) -> i64 {
        (self.value * REWARD_SCALE as f64).round() as i64
    }
}

#[derive(Debug, Clone)]
struct DummyEnvironment {
    #[allow(dead_code)]
    name: String,
}

impl Environment<NumericAction<i32>, DummyReward, DummyContext> for DummyEnvironment {
    fn reward_value(&self, action: NumericAction<i32>, context: DummyContext) -> i64 {
        self.get_reward(&action, &context).value()
    }

    fn get_context(&self) -> DummyContext {
        DummyContext
    }

    fn get_reward(&self, action: &NumericAction<i32>, _context: &DummyContext) -> DummyReward {
        let raw = action.value() + 100;
        DummyReward::new(raw as f64)
    }
}

fn points(x: i128) -> f64 {
    x as f64 / REWARD_SCALE as f64
}

fn ratio_points(r: Ratio) -> f64 {
    r.num as f64 / r.den as f64 / REWARD_SCALE as f64
}

#[test]
fn test_run_episode() {
    let actions = vec![
        NumericAction::new(10, "a0"),
        NumericAction::new(20, "a1"),
        NumericAction::new(30, "a2"),
    ];
    let eps_greedy_policy = EpsilonGreedyPolicy::new(200_000, &actions).unwrap();
    let dummy_env = DummyEnvironment { name: "dummy".to_string() };

    let mut simulator = Simulator::new(eps_greedy_policy, dummy_env);

    let result = simulator.run_episode(10, &actions).unwrap();
    println!("{:?}", result);
    assert_eq!(result.steps_rewards.len(), 10);
    assert_eq!(result.steps_regret.len(), 10);
    assert_eq!(points(result.cumulative_optimal_reward), 1300.0);
    let total: i128 = result.steps_rewards.iter().map(|&r| r as i128).sum();
    assert_eq!(result.cumulative_reward, total);
    assert_eq!(*result.steps_regret.last().unwrap(), result.final_simple_regret());
}

#[test]
fn test_run_parallel_simulation() {
    let actions = vec![
        NumericAction::new(10, "a0"),
        NumericAction::new(20, "a1"),
        NumericAction::new(30, "a2"),
    ];
    let dummy_env = DummyEnvironment { name: "dummy".to_string() };

    let results: Vec<SimulationResults> = (0..100)
        .into_par_iter()
        .map(|_| {
            let policy = EpsilonGreedyPolicy::new(200_000, &actions).unwrap();
            let mut sim = Simulator::new(policy, dummy_env.clone());
            sim.run_episode(1000, &actions).unwrap()
        })
        .collect();

    let stats = analyze_results(&results);
    println!("Average reward: {:.3}", ratio_points(stats.average_cumulative_reward));
    println!("Average regret: {:.3}", ratio_points(stats.average_cumulative_regret));
    assert_eq!(stats.final_simple_regrets.len(), 100);
    assert_eq!(stats.average_step_rewards.len(), 1000);
}

#[test]
fn greedy_run_settles_on_best_action() {
    let actions = vec![
        NumericAction::with_id(0, 10, "a0"),
        NumericAction::with_id(1, 20, "a1"),
        NumericAction::with_id(2, 30, "a2"),
    ];
    let env = DummyEnvironment { name: "dummy".to_string() };
    let mut policy = EpsilonGreedyPolicy::new(0, &actions).unwrap();
    for a in &actions {
        policy.record(a, env.get_reward(a, &DummyContext).value()).unwrap();
    }
    let mut simulator = Simulator::new(policy, env);
    let result = simulator.run_episode(20, &actions).unwrap();
    for r in &result.steps_rewards {
        assert_eq!(*r, 130 * REWARD_SCALE);
    }
    assert_eq!(result.cumulative_reward, 20 * 130 * REWARD_SCALE as i128);
    for (t, regret) in result.steps_regret.iter().enumerate() {
        assert_eq!(*regret, 0, "step {}", t);
    }
}

#[test]
fn optimal_reward_is_greatest_value() {
    let env = DummyEnvironment { name: "dummy".to_string() };
    let actions = vec![
        NumericAction::with_id(0, 30, "a0"),
        NumericAction::with_id(1, 10, "a1"),
        NumericAction::with_id(2, 20, "a2"),
    ];
    assert_eq!(env.get_optimal_reward(&DummyContext, &actions).value, 130.0);
}

#[test]
fn analyze_single_episode() {
    let r = SimulationResults::new(70, 100, vec![30, 40], vec![20, 30]);
    let stats = analyze_results(&[r]);
    assert_eq!(stats.mean_final_simple_regret, Ratio { num: 30, den: 1 });
    assert_eq!(stats.regret_deviations, vec![0]);
    assert_eq!(stats.final_simple_regrets, vec![30]);
}

#[test]
fn analyze_averages_elementwise() {
    let a = SimulationResults::new(3, 10, vec![1, 2], vec![4, 7]);
    let b = SimulationResults::new(9, 12, vec![4, 5], vec![1, 3]);
    let stats = analyze_results(&[a, b]);
    assert_eq!(stats.average_cumulative_reward, Ratio { num: 12, den: 2 });
    assert_eq!(stats.average_cumulative_regret, Ratio { num: 10, den: 2 });
    assert_eq!(stats.final_simple_regrets, vec![7, 3]);
    assert_eq!(stats.mean_final_simple_regret, Ratio { num: 10, den: 2 });
    assert_eq!(stats.regret_deviations, vec![4, -4]);
    assert_eq!(stats.average_step_rewards, vec![Ratio { num: 5, den: 2 }, Ratio { num: 7, den: 2 }]);
    assert_eq!(stats.average_step_regrets, vec![Ratio { num: 5, den: 2 }, Ratio { num: 10, den: 2 }]);
}
