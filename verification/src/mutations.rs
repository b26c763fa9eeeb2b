use vstd::prelude::*;

verus! {

/// A token that undoes a mutation of a value.
pub trait RevertMutation<Value>: Sized {
    /// The token can be applied to `value`.
    spec fn revert_requires(&self, value: Value) -> bool;

    /// Reverting `before` with this token gives `after`.
    spec fn revert_ensures(&self, before: Value, after: Value) -> bool;

    /// Undoes the mutation that produced this token.
    fn revert(self, value: &mut Value)
        requires
            self.revert_requires(*old(value)),
        ensures
            self.revert_ensures(*old(value), *final(value)),
    ;
}

/// The token of a mutation that changed nothing.
pub struct NoMutation;

impl<Value> RevertMutation<Value> for NoMutation {
    open spec fn revert_requires(&self, value: Value) -> bool {
        true
    }

    open spec fn revert_ensures(&self, before: Value, after: Value) -> bool {
        after == before
    }

    fn revert(self, value: &mut Value) {
    }
}

} // verus!
