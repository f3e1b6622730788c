use vstd::prelude::*;

verus! {

/// Errors about an arm's identity.
#[derive(Debug, Clone, Copy, PartialEq, Eq, Structural)]
pub enum ArmError {
    InvalidArmIdentifier,
    ArmNotFound,
}

/// Errors about reward values and the statistics built from them.
#[derive(Debug, Clone, PartialEq, Eq)]
pub enum RewardError {
    /// The value is not a usable reward.
    InvalidRewardValue,
    /// There is no observation to average.
    NoObservations,
    /// The running statistic cannot absorb another observation.
    RewardCalculationFailed,
    RewardTypeMismatch { expected: String, actual: String },
}

/// Errors of the per-arm state store.
#[derive(Debug, Clone, PartialEq, Eq)]
pub enum StateError {
    ArmNotFound,
    ArmAlreadyExists,
    RewardError(RewardError),
    NoArmsAvailable,
}

/// Errors of policy construction.
#[derive(Debug, Clone, PartialEq, Eq)]
pub enum OctopusError {
    InvalidParameter { parameter_name: String, value: String, expected_range: String },
    EmptyCollection { collection_name: String },
    /// Beta distribution parameters that are not both positive.
    InvalidDistributionParameters { alpha: u64, beta: u64 },
}

/// Errors of the store-backed epsilon-greedy selector.
#[derive(Debug, Clone, PartialEq, Eq)]
pub enum BanditError {
    /// The exploration rate, in reward units, lies outside `0 ..= REWARD_SCALE`.
    InvalidEpsilon(i64),
    StateError(StateError),
    ArmError(ArmError),
    RewardError(RewardError),
}

} // verus!
