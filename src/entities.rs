use vstd::prelude::*;
use crate::error::OctopusError;
use crate::random::random_below;
use crate::state::Keyed;

verus! {

/// An action (arm) of a bandit problem, with a stable numeric identifier.
pub trait Action: Keyed {
    /// The payload an action carries.
    type ValueType;

    /// The unique, stable identifier; the store indexes the action by it.
    fn id(&self) -> (r: u32)
        ensures
            r as u64 == self.key_spec(),
    ;

    /// The display name `name` returns.
    spec fn name_of(&self) -> String;

    /// The payload `value` returns.
    spec fn value_of(&self) -> Self::ValueType;

    /// A display name.
    fn name(&self) -> (r: String)
        ensures
            r == self.name_of(),
    ;

    /// The payload.
    fn value(&self) -> (r: Self::ValueType)
        ensures
            r == self.value_of(),
    ;
}

/// An action carrying a plain value.
#[derive(Debug, Clone, PartialEq, Eq, Hash)]
pub struct NumericAction<T> {
    id: u32,
    value: T,
    name: String,
}

impl<T: Copy> NumericAction<T> {
    pub closed spec fn id_spec(&self) -> u32 {
        self.id
    }

    pub closed spec fn value_spec(&self) -> T {
        self.value
    }

    pub closed spec fn name_spec(&self) -> Seq<char> {
        self.name@
    }

    pub closed spec fn name_text(&self) -> String {
        self.name
    }

    pub proof fn lemma_name_text(&self)
        ensures
            self.name_text()@ == self.name_spec(),
    {
    }

    /// A new action with an identifier drawn at random.
    pub fn new(value: T, name: &str) -> (r: Self)
        ensures
            r.value_spec() == value,
            r.name_spec() == name@,
    {
        let id = random_below(0x1_0000_0000) as u32;
        NumericAction { id, value, name: name.to_owned() }
    }

    /// A new action with the given identifier.
    pub fn with_id(id: u32, value: T, name: &str) -> (r: Self)
        ensures
            r.id_spec() == id,
            r.value_spec() == value,
            r.name_spec() == name@,
    {
        NumericAction { id, value, name: name.to_owned() }
    }
}

impl<T: Copy> Keyed for NumericAction<T> {
    open spec fn key_spec(&self) -> u64 {
        self.id_spec() as u64
    }

    fn key(&self) -> (r: u64) {
        self.id as u64
    }

    fn duplicate(&self) -> (r: Self) {
        NumericAction { id: self.id, value: self.value, name: self.name.clone() }
    }
}

impl<T: Copy> Action for NumericAction<T> {
    type ValueType = T;

    open spec fn name_of(&self) -> String {
        self.name_text()
    }

    open spec fn value_of(&self) -> T {
        self.value_spec()
    }

    fn id(&self) -> (r: u32) {
        self.id
    }

    fn name(&self) -> (r: String) {
        self.name.clone()
    }

    fn value(&self) -> (r: T) {
        self.value
    }
}

/// Whether one of the first `n` elements of `s` has key `k`.
pub open spec fn prefix_has_key<A: Keyed>(s: Seq<A>, n: int, k: u64) -> bool {
    exists|q: int| 0 <= q < n && q < s.len() && s[q].key_spec() == k
}

/// Whether `a` is one of the first `n` elements of `s`, and the last of
/// them with its key.
pub open spec fn last_with_key<A: Keyed>(s: Seq<A>, n: int, a: A) -> bool {
    exists|j: int| {
        &&& 0 <= j < n
        &&& j < s.len()
        &&& s[j] == a
        &&& forall|j2: int| j < j2 < n && j2 < s.len() ==> (#[trigger] s[j2]).key_spec() != a.key_spec()
    }
}

/// A collection of actions with distinct identifiers, in order of first
/// appearance.
#[derive(Debug)]
pub struct ActionStorage<A> {
    keys: Vec<u64>,
    actions: Vec<A>,
}

impl<A: Action> ActionStorage<A> {
    /// The identifier of each stored action, as a key.
    pub closed spec fn keys(&self) -> Seq<u64> {
        self.keys@
    }

    /// The stored actions.
    pub closed spec fn actions(&self) -> Seq<A> {
        self.actions@
    }

    pub open spec fn wf(&self) -> bool {
        &&& self.keys().len() == self.actions().len()
        &&& forall|i: int| 0 <= i < self.keys().len() ==> #[trigger] self.keys()[i] == self.actions()[i].key_spec()
        &&& forall|i: int, j: int| 0 <= i < j < self.keys().len() ==> self.keys()[i] != self.keys()[j]
    }

    /// Collects `initial_actions` by identifier, in order of first
    /// appearance; a later action replaces an earlier one with the same
    /// identifier.
    pub fn new(initial_actions: &[A]) -> (r: Result<Self, OctopusError>)
        ensures
            r is Ok,
            r->Ok_0.wf(),
            forall|k: u64| #[trigger] r->Ok_0.keys().contains(k) <==> prefix_has_key(
                initial_actions@,
                initial_actions@.len() as int,
                k,
            ),
            forall|p: int| 0 <= p < r->Ok_0.actions().len() ==> #[trigger] last_with_key(
                initial_actions@,
                initial_actions@.len() as int,
                r->Ok_0.actions()[p],
            ),
    {
        let mut keys: Vec<u64> = Vec::new();
        let mut v: Vec<A> = Vec::new();
        let mut i: usize = 0;
        while i < initial_actions.len()
            invariant
                i <= initial_actions@.len(),
                keys@.len() == v@.len(),
                forall|p: int| 0 <= p < keys@.len() ==> #[trigger] keys@[p] == v@[p].key_spec(),
                forall|p: int, q: int| 0 <= p < q < keys@.len() ==> keys@[p] != keys@[q],
                forall|k: u64| #[trigger] keys@.contains(k) <==> prefix_has_key(initial_actions@, i as int, k),
                forall|p: int| 0 <= p < v@.len() ==> #[trigger] last_with_key(initial_actions@, i as int, v@[p]),
            decreases initial_actions@.len() - i,
        {
            let a = &initial_actions[i];
            let key = a.key();
            let c = a.duplicate();
            let mut p: usize = 0;
            while p < keys.len() && keys[p] != key
                invariant
                    p <= keys@.len(),
                    forall|q: int| 0 <= q < p ==> keys@[q] != key,
                decreases keys@.len() - p,
            {
                p = p + 1;
            }
            let ghost prev_keys = keys@;
            let ghost prev = v@;
            if p < keys.len() {
                v.set(p, c);
            } else {
                keys.push(key);
                v.push(c);
            }
            proof {
                assert forall|q: int| 0 <= q < keys@.len() implies #[trigger] keys@[q] == v@[q].key_spec() by {
                    if q < prev.len() && q != p {
                        assert(prev_keys[q] == prev[q].key_spec());
                    }
                }
                assert forall|k: u64| #[trigger] keys@.contains(k) <==> prefix_has_key(initial_actions@, i + 1, k) by {
                    if keys@.contains(k) {
                        let q = choose|q: int| 0 <= q < keys@.len() && keys@[q] == k;
                        if q < prev_keys.len() {
                            assert(prev_keys.contains(k));
                        } else {
                            assert(initial_actions@[i as int].key_spec() == k);
                        }
                    }
                    if prefix_has_key(initial_actions@, i + 1, k) && !prefix_has_key(initial_actions@, i as int, k) {
                        assert(initial_actions@[i as int].key_spec() == k);
                        assert(keys@[p as int] == k);
                    }
                    if prefix_has_key(initial_actions@, i as int, k) {
                        assert(prev_keys.contains(k));
                        let q = choose|q: int| 0 <= q < prev_keys.len() && prev_keys[q] == k;
                        assert(keys@[q] == k);
                    }
                }
                assert forall|q: int| 0 <= q < v@.len() implies #[trigger] last_with_key(initial_actions@, i + 1, v@[q]) by {
                    if q == p {
                        assert(initial_actions@[i as int] == v@[q]);
                    } else {
                        assert(v@[q] == prev[q]);
                        assert(last_with_key(initial_actions@, i as int, prev[q]));
                        let j = choose|j: int| {
                            &&& 0 <= j < i
                            &&& j < initial_actions@.len()
                            &&& initial_actions@[j] == prev[q]
                            &&& forall|j2: int| j < j2 < i && j2 < initial_actions@.len() ==> (#[trigger] initial_actions@[j2]).key_spec() != prev[q].key_spec()
                        };
                        assert(prev_keys[q] != key);
                        assert forall|j2: int| j < j2 < i + 1 && j2 < initial_actions@.len() implies (#[trigger] initial_actions@[j2]).key_spec() != v@[q].key_spec() by {
                            if j2 == i {
                                assert(prev_keys[q] == prev[q].key_spec());
                            }
                        }
                    }
                }
            }
            i = i + 1;
        }
        let r = ActionStorage { keys, actions: v };
        assert(r.keys() == keys@ && r.actions() == v@);
        Ok(r)
    }

    /// An identical copy.
    pub fn duplicate(&self) -> (r: Self)
        ensures
            r.keys() == self.keys(),
            r.actions() == self.actions(),
    {
        let mut keys: Vec<u64> = Vec::new();
        let mut i: usize = 0;
        while i < self.keys.len()
            invariant
                i <= self.keys().len(),
                keys@ == self.keys().take(i as int),
            decreases self.keys().len() - i,
        {
            keys.push(self.keys[i]);
            i = i + 1;
            assert(keys@ =~= self.keys().take(i as int));
        }
        assert(keys@ =~= self.keys());
        ActionStorage { keys, actions: self.get_all_actions() }
    }

    /// Position of the action with key `key`, if stored.
    pub fn find(&self, key: u64) -> (r: Option<usize>)
        requires
            self.wf(),
        ensures
            r is None ==> !self.keys().contains(key),
            r is Some ==> r->Some_0 < self.keys().len() && self.keys()[r->Some_0 as int] == key,
    {
        let mut i: usize = 0;
        while i < self.keys.len()
            invariant
                i <= self.keys().len(),
                forall|j: int| 0 <= j < i ==> self.keys()[j] != key,
            decreases self.keys().len() - i,
        {
            if self.keys[i] == key {
                return Some(i);
            }
            i = i + 1;
        }
        None
    }

    /// The stored action at position `i`.
    pub fn action_at(&self, i: usize) -> (r: &A)
        requires
            self.wf(),
            i < self.actions().len(),
        ensures
            *r == self.actions()[i as int],
    {
        &self.actions[i]
    }

    /// Number of stored actions.
    pub fn len(&self) -> (r: usize)
        requires
            self.wf(),
        ensures
            r == self.actions().len(),
    {
        self.actions.len()
    }

    /// All stored actions, in order.
    pub fn get_all_actions(&self) -> (r: Vec<A>)
        ensures
            r@ == self.actions(),
    {
        let mut r: Vec<A> = Vec::new();
        let mut i: usize = 0;
        while i < self.actions.len()
            invariant
                i <= self.actions().len(),
                r@ == self.actions().take(i as int),
            decreases self.actions().len() - i,
        {
            r.push(self.actions[i].duplicate());
            i = i + 1;
            assert(r@ =~= self.actions().take(i as int));
        }
        assert(r@ =~= self.actions());
        r
    }
}

/// Side information available when an action is chosen.
pub trait Context {
}

/// The context of a non-contextual problem.
#[derive(Debug, Clone, Copy, PartialEq, Eq, Structural)]
pub struct DummyContext;

impl Context for DummyContext {
}

/// A reward signal, to be maximised, in fixed-point reward units.
pub trait Reward {
    spec fn value_spec(&self) -> i64;

    fn value(&self) -> (r: i64)
        ensures
            r == self.value_spec(),
    ;
}

} // verus!
