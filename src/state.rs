use vstd::prelude::*;
use dashmap::DashMap;
use crate::error::{RewardError, StateError};
use crate::ratio::Ratio;
use crate::reward::{reward_bound, MeanAggregator, Reward, RewardAggregator};

verus! {

#[verifier::external_type_specification]
#[verifier::external_body]
#[verifier::reject_recursive_types(K)]
#[verifier::reject_recursive_types(V)]
#[verifier::reject_recursive_types(S)]
pub struct ExDashMap<K, V, S>(DashMap<K, V, S>);

/// The entries of a concurrent index from arm key to slot.
pub uninterp spec fn slot_index(m: DashMap<u64, usize>) -> Map<u64, usize>;

/// An index without entries.
pub open spec fn no_slots() -> Map<u64, usize> {
    Map::empty()
}

/// Relies on `DashMap::new`: the new map holds no entry.
#[verifier::external_body]
fn index_new() -> (r: DashMap<u64, usize>)
    ensures
        slot_index(r) == no_slots(),
{
    DashMap::new()
}

/// Relies on `DashMap::insert`: afterwards `key` maps to `slot`, every
/// other entry is kept.
#[verifier::external_body]
fn index_insert(m: &mut DashMap<u64, usize>, key: u64, slot: usize)
    ensures
        slot_index(*final(m)) == slot_index(*old(m)).insert(key, slot),
{
    m.insert(key, slot);
}

/// Relies on `DashMap::get`: the entry of `key`, if there is one.
#[verifier::external_body]
fn index_get(m: &DashMap<u64, usize>, key: u64) -> (r: Option<usize>)
    ensures
        r == (if slot_index(*m).contains_key(key) {
            Some(slot_index(*m)[key])
        } else {
            None
        }),
{
    m.get(&key).map(|e| *e)
}

/// Something with a stable numeric identity, by which the store indexes it.
pub trait Keyed: Sized {
    spec fn key_spec(&self) -> u64;

    fn key(&self) -> (r: u64)
        ensures
            r == self.key_spec(),
    ;

    /// An identical copy.
    fn duplicate(&self) -> (r: Self)
        ensures
            r == *self,
    ;
}

/// The statistics of one arm: its reward aggregator and its pull count.
#[derive(Debug)]
pub struct ArmState<RA> {
    pub reward_aggregator: RA,
    pub n_pulls: u64,
}

/// The point estimate of an arm: its aggregator's mean, or zero before any
/// pull (and when the aggregator reports no mean).
pub open spec fn estimate_of<RA: RewardAggregator>(s: ArmState<RA>) -> Ratio {
    if s.n_pulls == 0 {
        Ratio { num: 0, den: 1 }
    } else {
        match s.reward_aggregator.mean_spec() {
            Ok(m) => m,
            Err(_) => Ratio { num: 0, den: 1 },
        }
    }
}

impl<RA: RewardAggregator> ArmState<RA> {
    pub open spec fn inv(self) -> bool {
        self.reward_aggregator.inv()
    }

    /// Whether one more reward of `v` units can be recorded.
    pub open spec fn accepts(self, v: i64) -> bool {
        self.n_pulls < u64::MAX && self.reward_aggregator.accepts(v)
    }

    /// The statistics after recording a reward of `v` units.
    pub open spec fn recorded(self, v: i64) -> ArmState<RA> {
        ArmState { reward_aggregator: self.reward_aggregator.absorbed(v), n_pulls: (self.n_pulls + 1) as u64 }
    }

    /// The statistics after a reset: no pull, a fresh aggregator.
    pub open spec fn cleared(self) -> ArmState<RA> {
        ArmState { reward_aggregator: self.reward_aggregator.fresh_spec(), n_pulls: 0 }
    }

    /// The outcome of recording `reward`, and the statistics afterwards.
    pub open spec fn update_outcome<R: Reward>(self, reward: R) -> (Result<(), StateError>, ArmState<RA>) {
        match reward.value_spec() {
            Err(e) => (Err(StateError::RewardError(e)), self),
            Ok(v) => if self.n_pulls == u64::MAX {
                (Err(StateError::RewardError(RewardError::RewardCalculationFailed)), self)
            } else if self.reward_aggregator.accepts(v) {
                (Ok(()), self.recorded(v))
            } else {
                (Err(StateError::RewardError(self.reward_aggregator.refusal(v))), self)
            },
        }
    }

    /// Fresh statistics: no pull yet.
    pub fn new(reward_aggregator: RA) -> (r: Self)
        ensures
            r.reward_aggregator == reward_aggregator,
            r.n_pulls == 0,
    {
        ArmState { reward_aggregator, n_pulls: 0 }
    }

    /// Records one reward: one more pull, and the value folded into the aggregator.
    pub fn update<R: Reward>(&mut self, reward: &R) -> (r: Result<(), StateError>)
        requires
            old(self).inv(),
        ensures
            final(self).inv(),
            (r, *final(self)) == old(self).update_outcome(*reward),
    {
        let value = match reward.get_value() {
            Ok(v) => v,
            Err(e) => return Err(StateError::RewardError(e)),
        };
        if self.n_pulls == u64::MAX {
            return Err(StateError::RewardError(RewardError::RewardCalculationFailed));
        }
        match self.reward_aggregator.update(value) {
            Ok(()) => {},
            Err(e) => return Err(StateError::RewardError(e)),
        }
        self.n_pulls = self.n_pulls + 1;
        Ok(())
    }

    /// The mean reward, or zero before the first pull.
    pub fn estimate(&self) -> (r: Ratio)
        requires
            self.inv(),
        ensures
            r == estimate_of(*self),
            r.wf(),
    {
        if self.n_pulls == 0 {
            return Ratio::zero();
        }
        match self.reward_aggregator.mean() {
            Ok(m) => m,
            Err(_) => Ratio::zero(),
        }
    }

    pub fn pulls(&self) -> (r: u64)
        ensures
            r == self.n_pulls,
    {
        self.n_pulls
    }
}

/// `a <= b <= c` gives `a <= c` for ratios with positive denominators.
pub proof fn lemma_ratio_le_trans(a: Ratio, b: Ratio, c: Ratio)
    requires
        a.wf(),
        b.wf(),
        c.wf(),
        a.le_spec(b),
        b.le_spec(c),
    ensures
        a.le_spec(c),
{
    let (an, ad, bn, bd, cn, cd) = (a.num as int, a.den as int, b.num as int, b.den as int, c.num as int, c.den as int);
    assert(an * cd <= cn * ad) by (nonlinear_arith)
        requires
            an * bd <= bn * ad,
            bn * cd <= cn * bd,
            ad > 0,
            bd > 0,
            cd > 0,
    {
        assert(an * bd * cd <= bn * ad * cd) by (nonlinear_arith)
            requires an * bd <= bn * ad, cd > 0;
        assert(bn * cd * ad <= cn * bd * ad) by (nonlinear_arith)
            requires bn * cd <= cn * bd, ad > 0;
        assert(an * cd * bd <= cn * ad * bd) by (nonlinear_arith)
            requires an * bd * cd <= bn * ad * cd, bn * cd * ad <= cn * bd * ad;
    }
}

/// Per-arm statistics for a set of registered arms.
///
/// Arms, their keys and their statistics are kept in registration order,
/// one slot each; a concurrent index maps each key to its slot. The
/// aggregator type `RA` decides what statistic an arm keeps.
pub struct StateStore<A, RA> {
    index: DashMap<u64, usize>,
    keys: Vec<u64>,
    arms: Vec<A>,
    states: Vec<ArmState<RA>>,
}

impl<A: Keyed, RA: RewardAggregator> StateStore<A, RA> {
    /// The registered arms, in registration order.
    pub closed spec fn arms(&self) -> Seq<A> {
        self.arms@
    }

    /// The key of each registered arm.
    pub closed spec fn keys(&self) -> Seq<u64> {
        self.keys@
    }

    /// The statistics of each registered arm.
    pub closed spec fn states(&self) -> Seq<ArmState<RA>> {
        self.states@
    }

    pub closed spec fn index(&self) -> Map<u64, usize> {
        slot_index(self.index)
    }

    pub open spec fn registered(&self, key: u64) -> bool {
        self.keys().contains(key)
    }

    /// The slot of the arm with key `key`.
    pub open spec fn slot_of(&self, key: u64) -> int {
        choose|i: int| 0 <= i < self.keys().len() && self.keys()[i] == key
    }

    pub open spec fn estimate_at(&self, i: int) -> Ratio {
        estimate_of(self.states()[i])
    }

    pub open spec fn pulls_of(&self, key: u64) -> u64 {
        self.states()[self.slot_of(key)].n_pulls
    }

    pub open spec fn wf(&self) -> bool {
        &&& self.keys().len() == self.arms().len()
        &&& self.states().len() == self.arms().len()
        &&& forall|i: int| 0 <= i < self.keys().len() ==> #[trigger] self.keys()[i] == self.arms()[i].key_spec()
        &&& forall|i: int, j: int| 0 <= i < j < self.keys().len() ==> self.keys()[i] != self.keys()[j]
        &&& forall|i: int| 0 <= i < self.keys().len() ==> #[trigger] self.index().contains_key(self.keys()[i])
            && self.index()[self.keys()[i]] == i
        &&& forall|k: u64| #[trigger] self.index().contains_key(k) ==> self.index()[k] < self.keys().len()
            && self.keys()[self.index()[k] as int] == k
        &&& forall|i: int| 0 <= i < self.states().len() ==> #[trigger] self.states()[i].inv()
    }

    /// The slot of a registered key is the position of that key.
    pub proof fn lemma_slot_of(&self, i: int)
        requires
            self.wf(),
            0 <= i < self.keys().len(),
        ensures
            self.slot_of(self.keys()[i]) == i,
            self.registered(self.keys()[i]),
    {
        assert(self.keys().contains(self.keys()[i]));
        let j = self.slot_of(self.keys()[i]);
        assert(self.keys()[j] == self.keys()[i]);
    }

    proof fn lemma_wf_from(&self, other: &Self)
        requires
            other.wf(),
            self.keys() == other.keys(),
            self.index() == other.index(),
            self.arms() == other.arms(),
            self.states().len() == other.states().len(),
            forall|i: int| 0 <= i < self.states().len() ==> #[trigger] self.states()[i].inv(),
        ensures
            self.wf(),
    {
        assert forall|i: int| 0 <= i < self.keys().len() implies #[trigger] self.index().contains_key(self.keys()[i])
            && self.index()[self.keys()[i]] == i by {
            assert(other.index().contains_key(other.keys()[i]));
        }
        assert forall|k: u64| #[trigger] self.index().contains_key(k) implies self.index()[k] < self.keys().len()
            && self.keys()[self.index()[k] as int] == k by {
            assert(other.index().contains_key(k));
        }
        assert forall|i: int, j: int| 0 <= i < j < self.keys().len() implies self.keys()[i] != self.keys()[j] by {
            assert(other.keys()[i] != other.keys()[j]);
        }
    }

    /// Sum of the pull counts of the first `n` registered arms.
    pub open spec fn pulls_upto(&self, n: int) -> int
        decreases n,
    {
        if n <= 0 {
            0
        } else {
            self.pulls_upto(n - 1) + self.states()[n - 1].n_pulls
        }
    }

    /// Index of the arm whose estimate is greatest, the later one on ties.
    pub open spec fn is_best_index(&self, b: int) -> bool {
        &&& 0 <= b < self.arms().len()
        &&& forall|j: int| 0 <= j < self.arms().len() ==> #[trigger] self.estimate_at(j).le_spec(self.estimate_at(b))
        &&& forall|j: int| b < j < self.arms().len() ==> #[trigger] self.estimate_at(j).lt_spec(self.estimate_at(b))
    }

    /// An empty store.
    pub fn new() -> (r: Self)
        ensures
            r.wf(),
            r.arms().len() == 0,
    {
        StateStore { index: index_new(), keys: Vec::new(), arms: Vec::new(), states: Vec::new() }
    }

    /// Number of registered arms.
    pub fn len(&self) -> (r: usize)
        requires
            self.wf(),
        ensures
            r == self.arms().len(),
    {
        self.arms.len()
    }

    /// The registered arm at position `i` of the registration order.
    pub fn arm_at(&self, i: usize) -> (r: &A)
        requires
            i < self.arms().len(),
        ensures
            *r == self.arms()[i as int],
    {
        &self.arms[i]
    }

    /// The slot of the arm with key `key`, if registered.
    fn find(&self, key: u64) -> (r: Option<usize>)
        requires
            self.wf(),
        ensures
            r is None ==> !self.registered(key),
            r is Some ==> self.registered(key) && r->Some_0 == self.slot_of(key) && r->Some_0 < self.keys().len(),
    {
        match index_get(&self.index, key) {
            Some(i) => {
                proof {
                    assert(self.index().contains_key(key));
                    self.lemma_slot_of(i as int);
                }
                Some(i)
            },
            None => {
                proof {
                    if self.registered(key) {
                        let j = choose|j: int| 0 <= j < self.keys().len() && self.keys()[j] == key;
                        assert(self.index().contains_key(self.keys()[j]));
                    }
                }
                None
            },
        }
    }

    /// Registers `arm` with fresh statistics, unless its key is already present.
    pub fn add_arm(&mut self, arm: A, reward_aggregator: RA) -> (r: Result<(), StateError>)
        requires
            old(self).wf(),
            reward_aggregator.inv(),
        ensures
            final(self).wf(),
            old(self).registered(arm.key_spec()) ==> r == Err::<(), StateError>(StateError::ArmAlreadyExists)
                && final(self).arms() == old(self).arms() && final(self).keys() == old(self).keys()
                && final(self).states() == old(self).states(),
            !old(self).registered(arm.key_spec()) ==> r is Ok
                && final(self).arms() == old(self).arms().push(arm)
                && final(self).keys() == old(self).keys().push(arm.key_spec())
                && final(self).states() == old(self).states().push(ArmState::<RA>::new_spec(reward_aggregator)),
    {
        let key = arm.key();
        if self.find(key).is_some() {
            return Err(StateError::ArmAlreadyExists);
        }
        let slot = self.keys.len();
        index_insert(&mut self.index, key, slot);
        self.keys.push(key);
        self.arms.push(arm);
        self.states.push(ArmState::new(reward_aggregator));
        proof {
            assert(self.index() == old(self).index().insert(key, slot));
            assert forall|i: int| 0 <= i < self.keys().len() implies #[trigger] self.index().contains_key(self.keys()[i])
                && self.index()[self.keys()[i]] == i by {
                if i < slot {
                    assert(self.keys()[i] == old(self).keys()[i]);
                    assert(old(self).index().contains_key(old(self).keys()[i]));
                    assert(self.keys()[i] != key) by {
                        assert(old(self).keys().contains(old(self).keys()[i]));
                    }
                }
            }
            assert forall|k: u64| #[trigger] self.index().contains_key(k) implies self.index()[k] < self.keys().len()
                && self.keys()[self.index()[k] as int] == k by {
                if k != key {
                    assert(old(self).index().contains_key(k));
                }
            }
            assert forall|i: int, j: int| 0 <= i < j < self.keys().len() implies self.keys()[i] != self.keys()[j] by {
                if j == slot {
                    assert(old(self).keys().contains(old(self).keys()[i]));
                }
            }
            assert forall|i: int| 0 <= i < self.states().len() implies #[trigger] self.states()[i].inv() by {
                if i < slot {
                    assert(self.states()[i] == old(self).states()[i]);
                }
            }
        }
        Ok(())
    }

    /// Records `reward` for `arm`.
    pub fn update<R: Reward>(&mut self, arm: A, reward: R) -> (r: Result<(), StateError>)
        requires
            old(self).wf(),
        ensures
            final(self).wf(),
            final(self).arms() == old(self).arms(),
            final(self).keys() == old(self).keys(),
            !old(self).registered(arm.key_spec()) ==> r == Err::<(), StateError>(StateError::ArmNotFound)
                && final(self).states() == old(self).states(),
            old(self).registered(arm.key_spec()) ==> ({
                let i = old(self).slot_of(arm.key_spec());
                let (res, s) = old(self).states()[i].update_outcome(reward);
                r == res && final(self).states() == old(self).states().update(i, s)
            }),
    {
        self.update_by_key(arm.key(), reward)
    }

    /// Records `reward` for the arm with key `key`.
    pub fn update_by_key<R: Reward>(&mut self, key: u64, reward: R) -> (r: Result<(), StateError>)
        requires
            old(self).wf(),
        ensures
            final(self).wf(),
            final(self).arms() == old(self).arms(),
            final(self).keys() == old(self).keys(),
            !old(self).registered(key) ==> r == Err::<(), StateError>(StateError::ArmNotFound)
                && final(self).states() == old(self).states(),
            old(self).registered(key) ==> ({
                let i = old(self).slot_of(key);
                let (res, s) = old(self).states()[i].update_outcome(reward);
                r == res && final(self).states() == old(self).states().update(i, s)
            }),
    {
        let i = match self.find(key) {
            Some(i) => i,
            None => return Err(StateError::ArmNotFound),
        };
        let ghost before = self.states@;
        let mut state = ArmState { reward_aggregator: self.states[i].reward_aggregator.duplicate(), n_pulls: self.states[i].n_pulls };
        assert(state == before[i as int]);
        let res = state.update(&reward);
        if res.is_ok() {
            self.states.set(i, state);
            proof {
                assert forall|j: int| 0 <= j < self.states().len() implies #[trigger] self.states()[j].inv() by {
                    if j != i {
                        assert(self.states()[j] == before[j]);
                    }
                }
                self.lemma_wf_from(old(self));
            }
        } else {
            proof {
                assert(before.update(i as int, state) =~= before);
            }
        }
        res
    }

    /// The point estimate of `arm`: its mean reward, zero before any pull.
    pub fn estimate(&self, arm: A) -> (r: Result<Ratio, StateError>)
        requires
            self.wf(),
        ensures
            !self.registered(arm.key_spec()) ==> r == Err::<Ratio, StateError>(StateError::ArmNotFound),
            self.registered(arm.key_spec()) ==> r == Ok::<Ratio, StateError>(
                self.estimate_at(self.slot_of(arm.key_spec())),
            ),
    {
        self.estimate_by_key(arm.key())
    }

    /// The point estimate of the arm with key `key`.
    pub fn estimate_by_key(&self, key: u64) -> (r: Result<Ratio, StateError>)
        requires
            self.wf(),
        ensures
            !self.registered(key) ==> r == Err::<Ratio, StateError>(StateError::ArmNotFound),
            self.registered(key) ==> r == Ok::<Ratio, StateError>(self.estimate_at(self.slot_of(key))),
    {
        match self.find(key) {
            Some(i) => Ok(self.states[i].estimate()),
            None => Err(StateError::ArmNotFound),
        }
    }

    /// The number of rewards recorded for `arm`.
    pub fn pulls(&self, arm: A) -> (r: Result<u64, StateError>)
        requires
            self.wf(),
        ensures
            !self.registered(arm.key_spec()) ==> r == Err::<u64, StateError>(StateError::ArmNotFound),
            self.registered(arm.key_spec()) ==> r == Ok::<u64, StateError>(self.pulls_of(arm.key_spec())),
    {
        self.pulls_by_key(arm.key())
    }

    /// The number of rewards recorded for the arm with key `key`.
    pub fn pulls_by_key(&self, key: u64) -> (r: Result<u64, StateError>)
        requires
            self.wf(),
        ensures
            !self.registered(key) ==> r == Err::<u64, StateError>(StateError::ArmNotFound),
            self.registered(key) ==> r == Ok::<u64, StateError>(self.pulls_of(key)),
    {
        match self.find(key) {
            Some(i) => Ok(self.states[i].pulls()),
            None => Err(StateError::ArmNotFound),
        }
    }

    /// The number of rewards recorded over all registered arms.
    pub fn total_pulls(&self) -> (r: u128)
        requires
            self.wf(),
        ensures
            r == self.pulls_upto(self.arms().len() as int),
    {
        let mut total: u128 = 0;
        let mut i: usize = 0;
        while i < self.states.len()
            invariant
                self.wf(),
                i <= self.arms().len(),
                total == self.pulls_upto(i as int),
                total <= i * u64::MAX,
            decreases self.arms().len() - i,
        {
            proof {
                assert((i + 1) * u64::MAX <= usize::MAX * u64::MAX) by (nonlinear_arith)
                    requires i + 1 <= usize::MAX;
                assert((i + 1) * u64::MAX == i * u64::MAX + u64::MAX) by (nonlinear_arith);
            }
            total = total + self.states[i].n_pulls as u128;
            i = i + 1;
        }
        total
    }

    /// The arm with the greatest estimate; on ties the later-registered one.
    pub fn best_arm(&self) -> (r: Result<A, StateError>)
        requires
            self.wf(),
        ensures
            self.arms().len() == 0 ==> r == Err::<A, StateError>(StateError::NoArmsAvailable),
            self.arms().len() > 0 ==> r is Ok && exists|b: int|
                #[trigger] self.is_best_index(b) && r->Ok_0 == self.arms()[b],
    {
        match self.best_index() {
            None => Err(StateError::NoArmsAvailable),
            Some(b) => Ok(self.arms[b].duplicate()),
        }
    }

    /// Position of the arm with the greatest estimate; on ties the later one.
    pub fn best_index(&self) -> (r: Option<usize>)
        requires
            self.wf(),
        ensures
            self.arms().len() == 0 <==> r is None,
            r is Some ==> self.is_best_index(r->Some_0 as int),
    {
        if self.states.len() == 0 {
            return None;
        }
        let mut best: usize = 0;
        let mut best_est = self.states[0].estimate();
        let mut i: usize = 1;
        while i < self.states.len()
            invariant
                self.wf(),
                1 <= i <= self.arms().len(),
                best < i,
                best_est == self.estimate_at(best as int),
                best_est.wf(),
                forall|j: int| 0 <= j < i ==> #[trigger] self.estimate_at(j).wf(),
                forall|j: int| 0 <= j < i ==> #[trigger] self.estimate_at(j).le_spec(best_est),
                forall|j: int| best < j < i ==> #[trigger] self.estimate_at(j).lt_spec(best_est),
            decreases self.arms().len() - i,
        {
            let e = self.states[i].estimate();
            if best_est.le(&e) {
                proof {
                    assert forall|j: int| 0 <= j < i + 1 implies #[trigger] self.estimate_at(j).le_spec(e) by {
                        if j < i {
                            lemma_ratio_le_trans(self.estimate_at(j), best_est, e);
                        }
                    }
                }
                best = i;
                best_est = e;
            }
            i = i + 1;
        }
        Some(best)
    }

    /// Clears the statistics of every registered arm; registrations stay.
    pub fn reset(&mut self)
        requires
            old(self).wf(),
        ensures
            final(self).wf(),
            final(self).arms() == old(self).arms(),
            final(self).keys() == old(self).keys(),
            final(self).states().len() == old(self).states().len(),
            forall|i: int| 0 <= i < final(self).states().len() ==> #[trigger] final(self).states()[i]
                == old(self).states()[i].cleared(),
    {
        let n = self.states.len();
        let mut i: usize = 0;
        while i < n
            invariant
                old(self).wf(),
                self.arms() == old(self).arms(),
                self.keys() == old(self).keys(),
                self.index() == old(self).index(),
                n == self.states().len(),
                n == old(self).states().len(),
                i <= n,
                forall|j: int| 0 <= j < i ==> #[trigger] self.states()[j] == old(self).states()[j].cleared(),
                forall|j: int| i <= j < n ==> #[trigger] self.states()[j] == old(self).states()[j],
                forall|j: int| 0 <= j < n ==> #[trigger] self.states()[j].inv(),
            decreases n - i,
        {
            let fresh = ArmState { reward_aggregator: self.states[i].reward_aggregator.fresh(), n_pulls: 0 };
            self.states.set(i, fresh);
            i = i + 1;
        }
        proof {
            self.lemma_wf_from(old(self));
        }
    }

    /// A copy with clones of the same arms and the same statistics.
    pub fn duplicate(&self) -> (r: Self)
        requires
            self.wf(),
        ensures
            r.wf(),
            r.keys() == self.keys(),
            r.states() == self.states(),
            r.arms() == self.arms(),
    {
        let mut copy = StateStore::<A, RA>::new();
        let mut i: usize = 0;
        while i < self.keys.len()
            invariant
                self.wf(),
                copy.wf(),
                i <= self.keys().len(),
                copy.keys() == self.keys().take(i as int),
                copy.states() == self.states().take(i as int),
                copy.arms() == self.arms().take(i as int),
            decreases self.keys().len() - i,
        {
            let arm = self.arms[i].duplicate();
            let key = self.keys[i];
            let ghost before = copy;
            let slot = copy.keys.len();
            proof {
                if copy.keys().contains(key) {
                    let q = choose|q: int| 0 <= q < copy.keys().len() && copy.keys()[q] == key;
                    assert(self.keys()[q] == key);
                }
            }
            index_insert(&mut copy.index, key, slot);
            copy.keys.push(key);
            copy.arms.push(arm);
            let st = ArmState { reward_aggregator: self.states[i].reward_aggregator.duplicate(), n_pulls: self.states[i].n_pulls };
            copy.states.push(st);
            proof {
                assert(copy.index() == before.index().insert(key, slot));
                assert(copy.keys() =~= self.keys().take(i + 1));
                assert(copy.states() =~= self.states().take(i + 1));
                assert forall|j: int| 0 <= j < copy.keys().len() implies #[trigger] copy.index().contains_key(copy.keys()[j])
                    && copy.index()[copy.keys()[j]] == j by {
                    if j < slot {
                        assert(copy.keys()[j] == before.keys()[j]);
                        assert(before.index().contains_key(before.keys()[j]));
                    }
                }
                assert forall|k: u64| #[trigger] copy.index().contains_key(k) implies copy.index()[k] < copy.keys().len()
                    && copy.keys()[copy.index()[k] as int] == k by {
                    if k != key {
                        assert(before.index().contains_key(k));
                    }
                }
                assert forall|p: int, q: int| 0 <= p < q < copy.keys().len() implies copy.keys()[p] != copy.keys()[q] by {
                    assert(self.keys()[p] != self.keys()[q]);
                }
                assert forall|p: int| 0 <= p < copy.states().len() implies #[trigger] copy.states()[p].inv() by {
                    assert(copy.states()[p] == self.states()[p]);
                }
                assert(copy.arms() =~= self.arms().take(i + 1));
            }
            i = i + 1;
        }
        proof {
            assert(copy.keys() =~= self.keys());
            assert(copy.states() =~= self.states());
            assert(copy.arms() =~= self.arms());
        }
        copy
    }
}

impl<RA: RewardAggregator> ArmState<RA> {
    pub open spec fn new_spec(reward_aggregator: RA) -> ArmState<RA> {
        ArmState { reward_aggregator, n_pulls: 0 }
    }
}

/// Recording a reward of `v` units in running-mean statistics adds exactly
/// one pull, and the estimate afterwards is the old total plus `v`, over the
/// old count plus one.
pub proof fn update_adds_one_pull(s: ArmState<MeanAggregator>, v: i64)
    requires
        s.inv(),
        s.accepts(v),
    ensures
        s.recorded(v).n_pulls == s.n_pulls + 1,
        s.recorded(v).inv(),
        estimate_of(s.recorded(v)).num == s.reward_aggregator.total + v,
        estimate_of(s.recorded(v)).den == s.reward_aggregator.count + 1,
{
    let c = s.reward_aggregator.count as int;
    assert(c * reward_bound() + reward_bound() == (c + 1) * reward_bound()) by (nonlinear_arith);
    assert(c * (reward_bound() - 1) + (reward_bound() - 1) == (c + 1) * (reward_bound() - 1)) by (nonlinear_arith);
    assert((c + 1) * reward_bound() <= 0x1_0000_0000_0000_0000 * reward_bound()) by (nonlinear_arith)
        requires
            c + 1 <= 0x1_0000_0000_0000_0000,
    ;
    assert((c + 1) * (reward_bound() - 1) <= 0x1_0000_0000_0000_0000 * (reward_bound() - 1)) by (nonlinear_arith)
        requires
            c + 1 <= 0x1_0000_0000_0000_0000,
    ;
}

/// In a store of running means, a successful update of the arm with key `k`
/// by `v` units adds one to its pulls and makes its estimate
/// `(old total + v) / (old count + 1)`; the other arms keep their statistics.
pub proof fn store_update_law<A: Keyed>(
    before: StateStore<A, MeanAggregator>,
    after: StateStore<A, MeanAggregator>,
    k: u64,
    v: i64,
)
    requires
        before.wf(),
        before.registered(k),
        before.states()[before.slot_of(k)].accepts(v),
        after.keys() == before.keys(),
        after.states() == before.states().update(before.slot_of(k), before.states()[before.slot_of(k)].recorded(v)),
    ensures
        after.pulls_of(k) == before.pulls_of(k) + 1,
        estimate_of(after.states()[after.slot_of(k)]).num == before.states()[before.slot_of(k)].reward_aggregator.total + v,
        estimate_of(after.states()[after.slot_of(k)]).den == before.states()[before.slot_of(k)].reward_aggregator.count + 1,
        forall|j: int| 0 <= j < before.states().len() && j != before.slot_of(k) ==> #[trigger] after.states()[j]
            == before.states()[j],
{
    update_adds_one_pull(before.states()[before.slot_of(k)], v);
}

/// After a reset every registered arm has zero pulls and a zero estimate,
/// and exactly the same keys are registered, so registering one of them
/// again still fails.
pub proof fn reset_law<A: Keyed, RA: RewardAggregator>(before: StateStore<A, RA>, after: StateStore<A, RA>)
    requires
        before.wf(),
        after.keys() == before.keys(),
        after.states().len() == before.states().len(),
        forall|i: int| 0 <= i < after.states().len() ==> #[trigger] after.states()[i] == before.states()[i].cleared(),
    ensures
        forall|k: u64| #[trigger] after.registered(k) <==> before.registered(k),
        forall|k: u64| #[trigger] after.registered(k) ==> after.pulls_of(k) == 0,
        forall|i: int| 0 <= i < after.states().len() ==> (#[trigger] after.estimate_at(i)).num == 0,
{
    assert forall|k: u64| #[trigger] after.registered(k) implies after.pulls_of(k) == 0 by {
        let i = after.slot_of(k);
        assert(after.states()[i] == before.states()[i].cleared());
    }
    assert forall|i: int| 0 <= i < after.states().len() implies (#[trigger] after.estimate_at(i)).num == 0 by {
        assert(after.states()[i] == before.states()[i].cleared());
    }
}

} // verus!
