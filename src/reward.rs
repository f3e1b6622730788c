use vstd::prelude::*;
use crate::error::RewardError;
use crate::ratio::Ratio;

verus! {

/// Number of reward units in one reward point: rewards are fixed-point
/// values with six decimal places.
pub const REWARD_SCALE: i64 = 1_000_000;

/// A reward observation that can be read as a fixed-point value.
pub trait Reward {
    /// The value this reward reports, in reward units.
    spec fn value_spec(&self) -> Result<i64, RewardError>;

    fn is_valid(&self) -> (r: Result<(), RewardError>)
        ensures
            r is Ok <==> self.value_spec() is Ok,
    ;

    fn get_value(&self) -> (r: Result<i64, RewardError>)
        ensures
            r == self.value_spec(),
    ;
}

/// A running statistic over a stream of rewards.
pub trait RewardAggregator: Sized {
    spec fn inv(&self) -> bool;

    /// What `mean` reports.
    spec fn mean_spec(&self) -> Result<Ratio, RewardError>;

    /// Whether one more observation can be absorbed.
    spec fn accepts(&self, reward: i64) -> bool;

    /// The error reported when an observation is refused.
    spec fn refusal(&self, reward: i64) -> RewardError;

    /// The statistic after absorbing `reward`.
    spec fn absorbed(&self, reward: i64) -> Self;

    fn update(&mut self, reward: i64) -> (r: Result<(), RewardError>)
        requires
            old(self).inv(),
        ensures
            final(self).inv(),
            r is Ok <==> old(self).accepts(reward),
            r is Ok ==> *final(self) == old(self).absorbed(reward),
            r is Err ==> *final(self) == *old(self) && r == Err::<(), RewardError>(
                old(self).refusal(reward),
            ),
    ;

    fn mean(&self) -> (r: Result<Ratio, RewardError>)
        requires
            self.inv(),
        ensures
            r == self.mean_spec(),
            r is Ok ==> r->Ok_0.wf(),
    ;

    /// The statistic with every observation forgotten.
    spec fn fresh_spec(&self) -> Self;

    fn fresh(&self) -> (r: Self)
        ensures
            r == self.fresh_spec(),
            r.inv(),
    ;

    /// An identical copy.
    fn duplicate(&self) -> (r: Self)
        ensures
            r == *self,
    ;
}

/// A numeric reward, in reward units.
#[derive(Debug, Clone, Copy, PartialEq, Eq, Structural)]
pub struct NumericReward {
    pub value: i64,
}

/// The numeric reward of `value` units.
pub open spec fn reward_of(value: i64) -> NumericReward {
    NumericReward { value }
}

impl NumericReward {
    /// A reward of `value` reward units.
    pub fn new(value: i64) -> (r: Self)
        ensures
            r == reward_of(value),
    {
        NumericReward { value }
    }
}

impl Reward for NumericReward {
    open spec fn value_spec(&self) -> Result<i64, RewardError> {
        Ok(self.value)
    }

    fn is_valid(&self) -> (r: Result<(), RewardError>) {
        Ok(())
    }

    fn get_value(&self) -> (r: Result<i64, RewardError>) {
        Ok(self.value)
    }
}

/// A success or a failure, worth one reward point or nothing.
#[derive(Debug, Clone, Copy, PartialEq, Eq, Structural)]
pub struct BinaryReward {
    value: bool,
}

impl BinaryReward {
    pub closed spec fn is_success(self) -> bool {
        self.value
    }

    pub fn new(value: bool) -> (r: Self)
        ensures
            r.is_success() == value,
    {
        BinaryReward { value }
    }

    pub fn success() -> (r: Self)
        ensures
            r.is_success(),
    {
        Self::new(true)
    }

    pub fn failure() -> (r: Self)
        ensures
            !r.is_success(),
    {
        Self::new(false)
    }
}

impl Reward for BinaryReward {
    open spec fn value_spec(&self) -> Result<i64, RewardError> {
        Ok(if self.is_success() { REWARD_SCALE } else { 0 })
    }

    fn is_valid(&self) -> (r: Result<(), RewardError>) {
        Ok(())
    }

    fn get_value(&self) -> (r: Result<i64, RewardError>) {
        Ok(if self.value { REWARD_SCALE } else { 0 })
    }
}

/// Largest magnitude of a single reward, as an integer bound.
pub open spec fn reward_bound() -> int {
    0x8000_0000_0000_0000
}

/// The running mean of no observation.
pub open spec fn empty_mean() -> MeanAggregator {
    MeanAggregator { count: 0, total: 0 }
}

/// The running mean: a count of observations and their exact total.
#[derive(Debug, Clone, Copy, PartialEq, Eq, Structural)]
pub struct MeanAggregator {
    pub count: u64,
    pub total: i128,
}

impl MeanAggregator {
    pub open spec fn count_spec(self) -> nat {
        self.count as nat
    }

    pub open spec fn total_spec(self) -> int {
        self.total as int
    }

    /// An aggregator that has seen nothing.
    pub fn new() -> (r: Self)
        ensures
            r.inv(),
            r.count == 0,
            r.total == 0,
    {
        MeanAggregator { count: 0, total: 0 }
    }
}

impl RewardAggregator for MeanAggregator {
    /// The total stays within what `count` rewards can add up to.
    open spec fn inv(&self) -> bool {
        -(self.count_spec() * reward_bound()) <= self.total_spec() <= self.count_spec() * (
        reward_bound() - 1)
    }

    open spec fn mean_spec(&self) -> Result<Ratio, RewardError> {
        if self.count_spec() == 0 {
            Err(RewardError::NoObservations)
        } else {
            Ok(Ratio { num: self.total_spec() as i128, den: self.count_spec() as u64 })
        }
    }

    open spec fn accepts(&self, reward: i64) -> bool {
        self.count_spec() < u64::MAX
    }

    open spec fn refusal(&self, reward: i64) -> RewardError {
        RewardError::RewardCalculationFailed
    }

    open spec fn absorbed(&self, reward: i64) -> Self {
        MeanAggregator {
            count: (self.count_spec() + 1) as u64,
            total: (self.total_spec() + reward) as i128,
        }
    }

    fn update(&mut self, reward: i64) -> (r: Result<(), RewardError>) {
        if self.count == u64::MAX {
            return Err(RewardError::RewardCalculationFailed);
        }
        proof {
            let c = self.count as int;
            assert(c * reward_bound() + reward_bound() == (c + 1) * reward_bound()) by (nonlinear_arith);
            assert(c * (reward_bound() - 1) + (reward_bound() - 1) == (c + 1) * (reward_bound() - 1))
                by (nonlinear_arith);
            assert((c + 1) * reward_bound() <= 0x1_0000_0000_0000_0000 * reward_bound())
                by (nonlinear_arith)
                requires
                    c + 1 <= 0x1_0000_0000_0000_0000,
            ;
            assert((c + 1) * (reward_bound() - 1) <= 0x1_0000_0000_0000_0000 * (reward_bound() - 1))
                by (nonlinear_arith)
                requires
                    c + 1 <= 0x1_0000_0000_0000_0000,
            ;
            assert(0x1_0000_0000_0000_0000 * reward_bound() == 0x8000_0000_0000_0000_0000_0000_0000_0000);
            assert(0x1_0000_0000_0000_0000 * (reward_bound() - 1) < 0x7fff_ffff_ffff_ffff_ffff_ffff_ffff_ffff);
        }
        self.total = self.total + reward as i128;
        self.count = self.count + 1;
        Ok(())
    }

    fn mean(&self) -> (r: Result<Ratio, RewardError>) {
        if self.count == 0 {
            Err(RewardError::NoObservations)
        } else {
            Ok(Ratio { num: self.total, den: self.count })
        }
    }

    open spec fn fresh_spec(&self) -> Self {
        MeanAggregator { count: 0, total: 0 }
    }

    fn fresh(&self) -> (r: Self) {
        MeanAggregator::new()
    }

    fn duplicate(&self) -> (r: Self) {
        *self
    }
}

} // verus!
