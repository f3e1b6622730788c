use vstd::prelude::*;
use crate::random::random_below;
use crate::state::Keyed;
use crate::text::{decimal, push_decimal};

verus! {

/// Exclusive upper bound of the identifiers drawn for new arms.
pub const ARM_ID_BOUND: u64 = 1_000_000;

/// The identifier of an arm, as decimal text.
fn id_text(id: usize) -> (r: String)
    ensures
        r@ == decimal(id as nat),
{
    let mut s = String::new();
    push_decimal(&mut s, id as u64);
    s
}

/// One selectable option of a bandit problem.
pub trait Arm: Keyed {
    spec fn valid_spec(&self) -> bool;

    spec fn name_spec(&self) -> Seq<char>;

    spec fn id_spec(&self) -> Seq<char>;

    /// Whether the arm is in a usable state.
    fn is_valid(&self) -> (r: bool)
        ensures
            r == self.valid_spec(),
    ;

    /// The arm's display name.
    fn name(&self) -> (r: &str)
        ensures
            r@ == self.name_spec(),
    ;

    /// The arm's identifier, as text.
    fn id(&self) -> (r: String)
        ensures
            r@ == self.id_spec(),
    ;
}

/// An arm identified by a number; always valid.
#[derive(Debug, Clone, PartialEq, Eq, Hash)]
pub struct NumericArm {
    pub id: usize,
    pub name: String,
}

impl NumericArm {
    /// A new arm named `name`, with an identifier drawn at random below `ARM_ID_BOUND`.
    pub fn new(name: String) -> (r: Self)
        ensures
            r.name == name,
            r.id < ARM_ID_BOUND,
    {
        let id = random_below(ARM_ID_BOUND) as usize;
        NumericArm { id, name }
    }
}

impl Keyed for NumericArm {
    open spec fn key_spec(&self) -> u64 {
        self.id as u64
    }

    fn key(&self) -> (r: u64) {
        self.id as u64
    }

    fn duplicate(&self) -> (r: Self) {
        NumericArm { id: self.id, name: self.name.clone() }
    }
}

impl Arm for NumericArm {
    open spec fn valid_spec(&self) -> bool {
        true
    }

    open spec fn name_spec(&self) -> Seq<char> {
        self.name@
    }

    open spec fn id_spec(&self) -> Seq<char> {
        decimal(self.id as nat)
    }

    fn is_valid(&self) -> (r: bool) {
        true
    }

    fn name(&self) -> (r: &str) {
        self.name.as_str()
    }

    fn id(&self) -> (r: String) {
        id_text(self.id)
    }
}

/// A named arm; valid when its name is not empty.
#[derive(Debug, Clone, PartialEq, Eq, Hash)]
pub struct StringArm {
    pub id: usize,
    pub name: String,
}

impl StringArm {
    /// A new arm named `name`, with an identifier drawn at random below `ARM_ID_BOUND`.
    pub fn new(name: String) -> (r: Self)
        ensures
            r.name == name,
            r.id < ARM_ID_BOUND,
    {
        let id = random_below(ARM_ID_BOUND) as usize;
        StringArm { id, name }
    }
}

impl Keyed for StringArm {
    open spec fn key_spec(&self) -> u64 {
        self.id as u64
    }

    fn key(&self) -> (r: u64) {
        self.id as u64
    }

    fn duplicate(&self) -> (r: Self) {
        StringArm { id: self.id, name: self.name.clone() }
    }
}

impl Arm for StringArm {
    open spec fn valid_spec(&self) -> bool {
        self.name@.len() > 0
    }

    open spec fn name_spec(&self) -> Seq<char> {
        self.name@
    }

    open spec fn id_spec(&self) -> Seq<char> {
        decimal(self.id as nat)
    }

    fn is_valid(&self) -> (r: bool) {
        !self.name.as_str().is_empty()
    }

    fn name(&self) -> (r: &str) {
        self.name.as_str()
    }

    fn id(&self) -> (r: String) {
        id_text(self.id)
    }
}

} // verus!
