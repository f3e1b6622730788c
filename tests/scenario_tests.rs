use octopus::entities::{DummyContext, NumericAction, Reward};
use octopus::metrics::{analyze_results, SimulationResults};
use octopus::policies::EpsilonGreedyPolicy;
use octopus::policy::BanditPolicy;
use octopus::ratio::Ratio;
use octopus::reward::{MeanAggregator, REWARD_SCALE};
use octopus::text::fixed_point_text;

#[derive(Debug, Clone, PartialEq)]
struct Points(f64);

impl Reward for Points {
    fn value_spec(&self) -> i64 {
        self.value()
    }

    fn value(&self) -> i64 {
        (self.0 * REWARD_SCALE as f64).round() as i64
    }
}

type Policy = EpsilonGreedyPolicy<NumericAction<i64>, MeanAggregator>;

#[test]
fn greedy_picks_best_of_three_valued_actions() {
    let a = NumericAction::with_id(1, 1, "A");
    let b = NumericAction::with_id(2, 2, "B");
    let c = NumericAction::with_id(3, 3, "C");
    let actions = vec![a.clone(), b.clone(), c.clone()];
    let mut policy = Policy::new(0, &actions).unwrap();
    for (action, reward) in [(&a, 1.0), (&b, 2.0), (&c, 3.0)] {
        BanditPolicy::<_, Points, DummyContext>::update(&mut policy, &DummyContext, action, &Points(reward)).unwrap();
    }
    for _ in 0..100 {
        let chosen = BanditPolicy::<_, Points, DummyContext>::choose_action(&policy, &DummyContext);
        assert_eq!(chosen, c);
    }
}

#[test]
fn greedy_tracks_strict_maximum_over_long_trial() {
    let actions: Vec<NumericAction<i64>> = (0..5).map(|i| NumericAction::with_id(i, i as i64, "x")).collect();
    let mut policy = Policy::new(0, &actions).unwrap();
    let rewards = [0.3, -1.0, 2.5, 2.4, 0.0];
    for (action, r) in actions.iter().zip(rewards) {
        BanditPolicy::<_, Points, DummyContext>::update(&mut policy, &DummyContext, action, &Points(r)).unwrap();
    }
    for step in 0..1000 {
        let chosen = BanditPolicy::<_, Points, DummyContext>::choose_action(&policy, &DummyContext);
        assert_eq!(chosen, actions[2]);
        if step % 100 == 0 {
            BanditPolicy::<_, Points, DummyContext>::update(&mut policy, &DummyContext, &actions[2], &Points(2.5))
                .unwrap();
        }
    }
}

#[test]
fn epsilon_text_forms() {
    assert_eq!(fixed_point_text(1_500_000), "1.5");
    assert_eq!(fixed_point_text(-100_000), "-0.1");
    assert_eq!(fixed_point_text(0), "0");
    assert_eq!(fixed_point_text(2_000_000), "2");
    assert_eq!(fixed_point_text(1), "0.000001");
    assert_eq!(fixed_point_text(-123_456_789), "-123.456789");
    assert_eq!(fixed_point_text(i64::MIN), "-9223372036854.775808");
    assert_eq!(fixed_point_text(i64::MAX), "9223372036854.775807");
}

#[test]
fn analyze_three_episodes_spread() {
    let results: Vec<SimulationResults> = [10i128, 20, 30]
        .iter()
        .map(|r| SimulationResults::new(0, *r, vec![0], vec![*r]))
        .collect();
    let stats = analyze_results(&results);
    assert_eq!(stats.mean_final_simple_regret, Ratio { num: 60, den: 3 });
    assert_eq!(stats.regret_deviations, vec![-30, 0, 30]);
    assert_eq!(stats.average_step_regrets, vec![Ratio { num: 60, den: 3 }]);
}
