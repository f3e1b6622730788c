use vstd::prelude::*;

verus! {

/// Logic attached to an arm: computes an output from a context.
pub trait ArmLogic<C, O> {
    /// Whether `execute` may run on `context`.
    spec fn accepts_context(&self, context: &C) -> bool;

    /// Whether `out` is a possible result of `execute` on `context`.
    spec fn produces(&self, context: &C, out: O) -> bool;

    fn execute(&self, context: &C) -> (r: O)
        requires
            self.accepts_context(context),
        ensures
            self.produces(context, r),
    ;
}

/// Arm logic given by a function of the context.
pub struct FnArmLogic<F> {
    pub func: F,
}

impl<F> FnArmLogic<F> {
    pub fn new(func: F) -> (r: Self)
        ensures
            r.func == func,
    {
        FnArmLogic { func }
    }
}

impl<C, O, F: Fn(&C) -> O> ArmLogic<C, O> for FnArmLogic<F> {
    open spec fn accepts_context(&self, context: &C) -> bool {
        call_requires(self.func, (context,))
    }

    open spec fn produces(&self, context: &C, out: O) -> bool {
        call_ensures(self.func, (context,), out)
    }

    fn execute(&self, context: &C) -> (r: O) {
        (self.func)(context)
    }
}

/// Arm logic that returns the same value whatever the context.
pub struct ConstantLogic<O> {
    pub value: O,
}

impl<O: Clone> ConstantLogic<O> {
    pub fn new(value: O) -> (r: Self)
        ensures
            r.value == value,
    {
        ConstantLogic { value }
    }
}

impl<C, O: Clone> ArmLogic<C, O> for ConstantLogic<O> {
    open spec fn accepts_context(&self, context: &C) -> bool {
        true
    }

    open spec fn produces(&self, context: &C, out: O) -> bool {
        cloned(self.value, out)
    }

    fn execute(&self, context: &C) -> (r: O) {
        self.value.clone()
    }
}

} // verus!
