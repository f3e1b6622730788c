use vstd::prelude::*;
use crate::ratio::Ratio;

verus! {

/// The record of one simulated episode, in reward units.
#[derive(Debug, Clone, PartialEq, Eq)]
pub struct SimulationResults {
    /// Total reward obtained by the policy.
    pub cumulative_reward: i128,
    /// Total of the best rewards available at each step.
    pub cumulative_optimal_reward: i128,
    /// Reward obtained at each step.
    pub steps_rewards: Vec<i64>,
    /// Cumulative regret after each step.
    pub steps_regret: Vec<i128>,
}

impl SimulationResults {
    pub fn new(
        cumulative_reward: i128,
        cumulative_optimal_reward: i128,
        steps_rewards: Vec<i64>,
        steps_regret: Vec<i128>,
    ) -> (r: Self)
        ensures
            r.cumulative_reward == cumulative_reward,
            r.cumulative_optimal_reward == cumulative_optimal_reward,
            r.steps_rewards@ == steps_rewards@,
            r.steps_regret@ == steps_regret@,
    {
        SimulationResults { cumulative_reward, cumulative_optimal_reward, steps_rewards, steps_regret }
    }

    /// The regret at the end of the episode.
    pub open spec fn final_regret_spec(&self) -> int {
        self.cumulative_optimal_reward - self.cumulative_reward
    }

    /// The regret at the end of the episode: optimal total minus obtained total.
    pub fn final_simple_regret(&self) -> (r: i128)
        requires
            i128::MIN <= self.final_regret_spec() <= i128::MAX,
        ensures
            r == self.final_regret_spec(),
    {
        self.cumulative_optimal_reward - self.cumulative_reward
    }
}

/// Aggregates over a set of episodes of equal length.
#[derive(Debug, Clone, PartialEq, Eq)]
pub struct SummaryStats {
    pub average_cumulative_reward: Ratio,
    pub average_cumulative_regret: Ratio,
    /// The final regret of each episode.
    pub final_simple_regrets: Vec<i128>,
    pub mean_final_simple_regret: Ratio,
    /// For each episode, `n * regret - total regret` over the `n` episodes:
    /// the variance of the final regret is the sum of their squares over `n³`.
    pub regret_deviations: Vec<i128>,
    pub average_step_rewards: Vec<Ratio>,
    pub average_step_regrets: Vec<Ratio>,
}

/// One of the quantities that are averaged over episodes.
pub open spec fn measure(r: SimulationResults, kind: int, t: int) -> int {
    if kind == 0 {
        r.cumulative_reward as int
    } else if kind == 1 {
        r.final_regret_spec()
    } else if kind == 2 {
        r.steps_rewards@[t] as int
    } else {
        r.steps_regret@[t] as int
    }
}

/// Sum of a measure over the first `n` episodes.
pub open spec fn sum_measure(rs: Seq<SimulationResults>, n: int, kind: int, t: int) -> int
    decreases n,
{
    if n <= 0 {
        0
    } else {
        sum_measure(rs, n - 1, kind, t) + measure(rs[n - 1], kind, t)
    }
}

/// Half of the range of an `i128`: `2^126`.
pub open spec fn span() -> int {
    0x4000_0000_0000_0000_0000_0000_0000_0000
}

/// Whether `n` copies of `x` stay within `span()` either way, so that sums
/// of `n` such values and their deviations fit in an `i128`.
pub open spec fn fits_for(x: int, n: int) -> bool {
    -span() <= n * x < span()
}

/// What `analyze_results` needs of its input: at least one episode (and no
/// more than a slice can hold), all of the same length, and every total and
/// per-step regret small enough that its exact sum over the episodes fits.
pub open spec fn analyzable(rs: Seq<SimulationResults>) -> bool {
    &&& 0 < rs.len() < 0x8000_0000_0000_0000
    &&& forall|i: int| 0 <= i < rs.len() ==> {
        &&& #[trigger] rs[i].steps_rewards@.len() == rs[0].steps_rewards@.len()
        &&& rs[i].steps_regret@.len() == rs[0].steps_rewards@.len()
        &&& fits_for(rs[i].cumulative_reward as int, rs.len() as int)
        &&& fits_for(rs[i].final_regret_spec(), rs.len() as int)
        &&& forall|t: int| 0 <= t < rs[0].steps_rewards@.len() ==> #[trigger] fits_for(
            rs[i].steps_regret@[t] as int,
            rs.len() as int,
        )
    }
}

proof fn lemma_i64_fits(x: int, n: int)
    requires
        i64::MIN <= x <= i64::MAX,
        0 < n < 0x8000_0000_0000_0000,
    ensures
        fits_for(x, n),
{
    assert(-(0x8000_0000_0000_0000 * 0x8000_0000_0000_0000) < n * x) by (nonlinear_arith)
        requires i64::MIN <= x <= i64::MAX, 0 < n < 0x8000_0000_0000_0000;
    assert(n * x < 0x8000_0000_0000_0000 * 0x8000_0000_0000_0000) by (nonlinear_arith)
        requires i64::MIN <= x <= i64::MAX, 0 < n < 0x8000_0000_0000_0000;
}

proof fn lemma_fits_range(x: int, n: int)
    requires
        fits_for(x, n),
        n > 0,
    ensures
        -span() <= x < span(),
{
    assert(-span() <= x < span()) by (nonlinear_arith)
        requires -span() <= n * x < span(), n > 0, span() > 0;
}

proof fn lemma_analyzable_at(rs: Seq<SimulationResults>, j: int)
    requires
        analyzable(rs),
        0 <= j < rs.len(),
    ensures
        rs[j].steps_rewards@.len() == rs[0].steps_rewards@.len(),
        rs[j].steps_regret@.len() == rs[0].steps_rewards@.len(),
        fits_for(measure(rs[j], 0, 0), rs.len() as int),
        fits_for(measure(rs[j], 1, 0), rs.len() as int),
        forall|t: int| 0 <= t < rs[0].steps_rewards@.len() ==> #[trigger] fits_for(measure(rs[j], 3, t), rs.len() as int),
        forall|t: int| 0 <= t < rs[0].steps_rewards@.len() ==> #[trigger] fits_for(measure(rs[j], 2, t), rs.len() as int),
{
    assert(rs[j].steps_rewards@.len() == rs[0].steps_rewards@.len());
    assert forall|t: int| 0 <= t < rs[0].steps_rewards@.len() implies #[trigger] fits_for(measure(rs[j], 3, t), rs.len() as int) by {
        assert(fits_for(rs[j].steps_regret@[t] as int, rs.len() as int));
    }
    assert forall|t: int| 0 <= t < rs[0].steps_rewards@.len() implies #[trigger] fits_for(measure(rs[j], 2, t), rs.len() as int) by {
        lemma_i64_fits(rs[j].steps_rewards@[t] as int, rs.len() as int);
    }
}

/// Every measure of every episode fits.
proof fn lemma_all_fit(rs: Seq<SimulationResults>, kind: int, t: int)
    requires
        analyzable(rs),
        0 <= kind <= 3,
        kind >= 2 ==> 0 <= t < rs[0].steps_rewards@.len(),
    ensures
        forall|i: int| 0 <= i < rs.len() ==> fits_for(#[trigger] measure(rs[i], kind, t), rs.len() as int),
{
    assert forall|i: int| 0 <= i < rs.len() implies fits_for(#[trigger] measure(rs[i], kind, t), rs.len() as int) by {
        lemma_analyzable_at(rs, i);
    }
}

proof fn lemma_scaled_sum(rs: Seq<SimulationResults>, m: int, kind: int, t: int, n: int)
    requires
        0 <= m <= rs.len(),
        n > 0,
        forall|i: int| 0 <= i < m ==> fits_for(#[trigger] measure(rs[i], kind, t), n),
    ensures
        -(m * span()) <= n * sum_measure(rs, m, kind, t) <= m * span(),
    decreases m,
{
    if m > 0 {
        lemma_scaled_sum(rs, m - 1, kind, t, n);
        let a = sum_measure(rs, m - 1, kind, t);
        let x = measure(rs[m - 1], kind, t);
        assert(fits_for(x, n));
        assert(n * (a + x) == n * a + n * x) by (nonlinear_arith);
        assert(m * span() == (m - 1) * span() + span()) by (nonlinear_arith);
    }
}

/// Sums of at most `n` values that fit for `n` stay within `span()`.
proof fn lemma_sum_bound(rs: Seq<SimulationResults>, m: int, kind: int, t: int, n: int)
    requires
        0 <= m <= rs.len(),
        m <= n,
        n > 0,
        forall|i: int| 0 <= i < m ==> fits_for(#[trigger] measure(rs[i], kind, t), n),
    ensures
        -span() <= sum_measure(rs, m, kind, t) <= span(),
{
    lemma_scaled_sum(rs, m, kind, t, n);
    let s = sum_measure(rs, m, kind, t);
    assert(m * span() <= n * span()) by (nonlinear_arith)
        requires m <= n, span() > 0;
    assert(-span() <= s <= span()) by (nonlinear_arith)
        requires -(n * span()) <= n * s <= n * span(), n > 0, span() > 0;
}

/// The ratio `sum / n`.
pub open spec fn mean_of(sum: int, n: int) -> Ratio {
    Ratio { num: sum as i128, den: n as u64 }
}

/// The sum of a measure over all episodes.
pub open spec fn total(rs: Seq<SimulationResults>, kind: int, t: int) -> int {
    sum_measure(rs, rs.len() as int, kind, t)
}

/// Averages over episodes: mean totals, mean final regret and its spread,
/// and per-step mean rewards and regrets.
pub fn analyze_results(results: &[SimulationResults]) -> (r: SummaryStats)
    requires
        analyzable(results@),
    ensures
        ({
            let rs = results@;
            let n = rs.len() as int;
            let steps = rs[0].steps_rewards@.len();
            &&& r.average_cumulative_reward == mean_of(total(rs, 0, 0), n)
            &&& r.average_cumulative_regret == mean_of(total(rs, 1, 0), n)
            &&& r.mean_final_simple_regret == mean_of(total(rs, 1, 0), n)
            &&& r.final_simple_regrets@.len() == n
            &&& r.regret_deviations@.len() == n
            &&& forall|i: int| 0 <= i < n ==> #[trigger] r.final_simple_regrets@[i] == rs[i].final_regret_spec()
            &&& forall|i: int| 0 <= i < n ==> #[trigger] r.regret_deviations@[i] == n * rs[i].final_regret_spec() - total(rs, 1, 0)
            &&& r.average_step_rewards@.len() == steps
            &&& r.average_step_regrets@.len() == steps
            &&& forall|t: int| 0 <= t < steps ==> #[trigger] r.average_step_rewards@[t] == mean_of(total(rs, 2, t), n)
            &&& forall|t: int| 0 <= t < steps ==> #[trigger] r.average_step_regrets@[t] == mean_of(total(rs, 3, t), n)
        }),
{
    let n = results.len();
    let num_steps = results[0].steps_rewards.len();
    let ghost rs = results@;
    let mut sum_reward: i128 = 0;
    let mut sum_regret: i128 = 0;
    let mut finals: Vec<i128> = Vec::new();
    let mut step_rewards: Vec<i128> = Vec::new();
    let mut step_regrets: Vec<i128> = Vec::new();
    let mut t: usize = 0;
    while t < num_steps
        invariant
            t <= num_steps,
            step_rewards@.len() == t,
            step_regrets@.len() == t,
            forall|u: int| 0 <= u < t ==> #[trigger] step_rewards@[u] == 0,
            forall|u: int| 0 <= u < t ==> #[trigger] step_regrets@[u] == 0,
        decreases num_steps - t,
    {
        step_rewards.push(0);
        step_regrets.push(0);
        t = t + 1;
    }
    let mut i: usize = 0;
    while i < n
        invariant
            analyzable(rs),
            rs == results@,
            n == rs.len(),
            num_steps == rs[0].steps_rewards@.len(),
            i <= n,
            sum_reward == sum_measure(rs, i as int, 0, 0),
            sum_regret == sum_measure(rs, i as int, 1, 0),
            finals@.len() == i,
            forall|j: int| 0 <= j < i ==> #[trigger] finals@[j] == rs[j].final_regret_spec(),
            step_rewards@.len() == num_steps,
            step_regrets@.len() == num_steps,
            forall|u: int| 0 <= u < num_steps ==> #[trigger] step_rewards@[u] == sum_measure(rs, i as int, 2, u),
            forall|u: int| 0 <= u < num_steps ==> #[trigger] step_regrets@[u] == sum_measure(rs, i as int, 3, u),
        decreases n - i,
    {
        let res = &results[i];
        proof {
            lemma_analyzable_at(rs, i as int);
            lemma_all_fit(rs, 0, 0);
            lemma_all_fit(rs, 1, 0);
            lemma_sum_bound(rs, i + 1, 0, 0, n as int);
            lemma_sum_bound(rs, i + 1, 1, 0, n as int);
            lemma_fits_range(measure(rs[i as int], 0, 0), n as int);
            lemma_fits_range(measure(rs[i as int], 1, 0), n as int);
        }
        sum_reward = sum_reward + res.cumulative_reward;
        let fr = res.cumulative_optimal_reward - res.cumulative_reward;
        sum_regret = sum_regret + fr;
        finals.push(fr);
        let mut u: usize = 0;
        while u < num_steps
            invariant
                analyzable(rs),
                rs == results@,
                *res == rs[i as int],
                n == rs.len(),
                i < n,
                num_steps == rs[0].steps_rewards@.len(),
                res.steps_rewards@.len() == num_steps,
                res.steps_regret@.len() == num_steps,
                u <= num_steps,
                step_rewards@.len() == num_steps,
                step_regrets@.len() == num_steps,
                forall|w: int| 0 <= w < u ==> #[trigger] step_rewards@[w] == sum_measure(rs, i + 1, 2, w),
                forall|w: int| 0 <= w < u ==> #[trigger] step_regrets@[w] == sum_measure(rs, i + 1, 3, w),
                forall|w: int| u <= w < num_steps ==> #[trigger] step_rewards@[w] == sum_measure(rs, i as int, 2, w),
                forall|w: int| u <= w < num_steps ==> #[trigger] step_regrets@[w] == sum_measure(rs, i as int, 3, w),
            decreases num_steps - u,
        {
            proof {
                lemma_all_fit(rs, 2, u as int);
                lemma_all_fit(rs, 3, u as int);
                lemma_sum_bound(rs, i + 1, 2, u as int, n as int);
                lemma_sum_bound(rs, i + 1, 3, u as int, n as int);
            }
            let a = step_rewards[u] + res.steps_rewards[u] as i128;
            step_rewards.set(u, a);
            let b = step_regrets[u] + res.steps_regret[u];
            step_regrets.set(u, b);
            u = u + 1;
        }
        i = i + 1;
    }
    let ghost total_regret = sum_measure(rs, n as int, 1, 0);
    let mut deviations: Vec<i128> = Vec::new();
    let mut k: usize = 0;
    while k < n
        invariant
            analyzable(rs),
            rs == results@,
            n == rs.len(),
            k <= n,
            sum_regret == total_regret,
            total_regret == sum_measure(rs, n as int, 1, 0),
            finals@.len() == n,
            forall|j: int| 0 <= j < n ==> #[trigger] finals@[j] == rs[j].final_regret_spec(),
            deviations@.len() == k,
            forall|j: int| 0 <= j < k ==> #[trigger] deviations@[j] == n * rs[j].final_regret_spec() - total_regret,
        decreases n - k,
    {
        proof {
            lemma_all_fit(rs, 1, 0);
            lemma_sum_bound(rs, n as int, 1, 0, n as int);
            lemma_analyzable_at(rs, k as int);
        }
        let d = (n as i128) * finals[k] - sum_regret;
        deviations.push(d);
        k = k + 1;
    }
    let mut avg_rewards: Vec<Ratio> = Vec::new();
    let mut avg_regrets: Vec<Ratio> = Vec::new();
    let mut v: usize = 0;
    while v < num_steps
        invariant
            v <= num_steps,
            step_rewards@.len() == num_steps,
            step_regrets@.len() == num_steps,
            avg_rewards@.len() == v,
            avg_regrets@.len() == v,
            forall|w: int| 0 <= w < v ==> #[trigger] avg_rewards@[w] == mean_of(step_rewards@[w] as int, n as int),
            forall|w: int| 0 <= w < v ==> #[trigger] avg_regrets@[w] == mean_of(step_regrets@[w] as int, n as int),
        decreases num_steps - v,
    {
        avg_rewards.push(Ratio { num: step_rewards[v], den: n as u64 });
        avg_regrets.push(Ratio { num: step_regrets[v], den: n as u64 });
        v = v + 1;
    }
    SummaryStats {
        average_cumulative_reward: Ratio { num: sum_reward, den: n as u64 },
        average_cumulative_regret: Ratio { num: sum_regret, den: n as u64 },
        final_simple_regrets: finals,
        mean_final_simple_regret: Ratio { num: sum_regret, den: n as u64 },
        regret_deviations: deviations,
        average_step_rewards: avg_rewards,
        average_step_regrets: avg_regrets,
    }
}

/// Over a single episode the mean final regret is that episode's own final
/// regret, and its spread is exactly zero.
pub proof fn single_episode_summary(rs: Seq<SimulationResults>)
    requires
        rs.len() == 1,
    ensures
        total(rs, 1, 0) == rs[0].final_regret_spec(),
        1 * rs[0].final_regret_spec() - total(rs, 1, 0) == 0,
{
    assert(sum_measure(rs, 0, 1, 0) == 0);
}

} // verus!
