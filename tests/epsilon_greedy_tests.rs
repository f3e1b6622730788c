use octopus::arm::NumericArm;
use octopus::epsilon_greedy::EpsilonGreedy;
use octopus::error::{BanditError, StateError};
use octopus::reward::{MeanAggregator, NumericReward, REWARD_SCALE};
use octopus::state::StateStore;

fn reward(x: i64) -> NumericReward {
    NumericReward::new(x * REWARD_SCALE)
}

fn three_arms(state: &mut StateStore<NumericArm, MeanAggregator>) -> (NumericArm, NumericArm, NumericArm) {
    let arm1 = NumericArm { id: 1, name: "arm1".to_string() };
    let arm2 = NumericArm { id: 2, name: "arm2".to_string() };
    let arm3 = NumericArm { id: 3, name: "arm3".to_string() };
    state.add_arm(arm1.clone(), MeanAggregator::new()).unwrap();
    state.add_arm(arm2.clone(), MeanAggregator::new()).unwrap();
    state.add_arm(arm3.clone(), MeanAggregator::new()).unwrap();
    state.update(arm1.clone(), reward(1)).unwrap();
    state.update(arm2.clone(), reward(2)).unwrap();
    state.update(arm3.clone(), reward(3)).unwrap();
    (arm1, arm2, arm3)
}

#[test]
fn test_invalid_epsilon() {
    assert!(matches!(
        EpsilonGreedy::new(-100_000),
        Err(BanditError::InvalidEpsilon(-100_000))
    ));
    assert!(matches!(
        EpsilonGreedy::new(1_100_000),
        Err(BanditError::InvalidEpsilon(1_100_000))
    ));
}

#[test]
fn test_valid_epsilon() {
    assert!(EpsilonGreedy::new(0).is_ok());
    assert!(EpsilonGreedy::new(500_000).is_ok());
    assert!(EpsilonGreedy::new(1_000_000).is_ok());
}

#[test]
fn test_empty_state() {
    let state: StateStore<NumericArm, MeanAggregator> = StateStore::new();
    let bandit = EpsilonGreedy::new(100_000).unwrap();
    assert!(matches!(
        bandit.select_arm(&state),
        Err(BanditError::StateError(StateError::NoArmsAvailable))
    ));
}

#[test]
fn test_exploitation() {
    let mut state: StateStore<NumericArm, MeanAggregator> = StateStore::new();
    let bandit = EpsilonGreedy::new(0).unwrap();
    let (_arm1, _arm2, arm3) = three_arms(&mut state);

    for _ in 0..100 {
        let selected = bandit.select_arm(&state).unwrap();
        assert_eq!(selected.id, arm3.id);
    }
}

fn exploration_counts_within_tolerance(bandit: &EpsilonGreedy, state: &StateStore<NumericArm, MeanAggregator>, arms: [&NumericArm; 3]) -> bool {
    let mut counts = [0, 0, 0];
    let n_trials = 1000;

    for _ in 0..n_trials {
        let selected = bandit.select_arm(state).unwrap();
        for (i, arm) in arms.iter().enumerate() {
            if selected.id == arm.id {
                counts[i] += 1;
                break;
            }
        }
    }

    let expected = n_trials as f64 / 3.0;
    let tolerance = 0.1 * expected;

    counts.iter().all(|count| (*count as f64 - expected).abs() < tolerance)
}

#[test]
fn test_exploration() {
    let mut state: StateStore<NumericArm, MeanAggregator> = StateStore::new();
    let bandit = EpsilonGreedy::new(1_000_000).unwrap();
    let (arm1, arm2, arm3) = three_arms(&mut state);

    // A tolerance of 10% is about 2.2 standard deviations per arm, so a fair
    // selector misses it in a few percent of experiments: allow repeats.
    let within = (0..3).any(|_| exploration_counts_within_tolerance(&bandit, &state, [&arm1, &arm2, &arm3]));
    assert!(within);
}

#[test]
fn select_with_draws_explores_and_exploits() {
    let mut state: StateStore<NumericArm, MeanAggregator> = StateStore::new();
    let (arm1, _arm2, arm3) = three_arms(&mut state);
    let bandit = EpsilonGreedy::new(250_000).unwrap();
    assert_eq!(bandit.select_arm_with(&state, 249_999, 3).unwrap().id, arm1.id);
    assert_eq!(bandit.select_arm_with(&state, 250_000, 0).unwrap().id, arm3.id);
    assert_eq!(bandit.select_arm_with(&state, 0, 5).unwrap().id, arm3.id);
}
