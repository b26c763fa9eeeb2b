use super::VecMutator;
use crate::mutations::RevertMutation;
use vstd::prelude::*;

verus! {

/// Replaces a vector by a new one, generated from nothing.
pub struct Arbitrary;

/// A replacement by a new vector.
#[derive(Debug, Clone, Copy, PartialEq, Eq)]
pub struct ArbitraryStep;

/// Puts `value` in place of the vector.
pub struct ConcreteArbitrary<T> {
    pub value: Vec<T>,
}

/// Puts back the vector `value` that was replaced.
pub struct RevertArbitrary<T> {
    pub value: Vec<T>,
}

impl<T> RevertMutation<Vec<T>> for RevertArbitrary<T> {
    open spec fn revert_requires(&self, value: Vec<T>) -> bool {
        true
    }

    open spec fn revert_ensures(&self, before: Vec<T>, after: Vec<T>) -> bool {
        after@ == self.value@
    }

    fn revert(self, value: &mut Vec<T>) {
        let mut replaced = self.value;
        std::mem::swap(value, &mut replaced);
    }
}

impl Arbitrary {
    /// A replacement, when the elements can vary.
    pub fn default_random_step<T>(&self, mutator: &VecMutator, value: &Vec<T>) -> (step: Option<ArbitraryStep>)
        ensures
            step is Some <==> !mutator.element_max_complexity_is_zero,
    {
        if mutator.element_max_complexity_is_zero {
            return None;
        }
        Some(ArbitraryStep)
    }

    /// The replacement by `new_value`, a vector that the mutator generated at random.
    pub fn random<T>(new_value: Vec<T>) -> (mutation: ConcreteArbitrary<T>)
        ensures
            mutation.value@ == new_value@,
    {
        ConcreteArbitrary { value: new_value }
    }

    /// Replacements in order: the same as at random.
    pub fn default_step<T>(&self, mutator: &VecMutator, value: &Vec<T>) -> (step: Option<ArbitraryStep>)
        ensures
            step is Some <==> !mutator.element_max_complexity_is_zero,
    {
        self.default_random_step(mutator, value)
    }

    /// The next replacement in order is always one by a random vector.
    pub fn from_step<T>(new_value: Vec<T>) -> (mutation: Option<ConcreteArbitrary<T>>)
        ensures
            mutation matches Some(m) && m.value@ == new_value@,
    {
        Some(Self::random(new_value))
    }

    /// Puts the new vector in place and gives the token that puts the old one back.
    pub fn apply<T>(mutation: ConcreteArbitrary<T>, value: &mut Vec<T>) -> (revert: RevertArbitrary<T>)
        ensures
            final(value)@ == mutation.value@,
            revert.value@ == old(value)@,
    {
        let mut replaced = mutation.value;
        std::mem::swap(value, &mut replaced);
        RevertArbitrary { value: replaced }
    }
}

/// Replacing a vector and reverting the replacement gives the vector that was there.
pub proof fn lemma_arbitrary_then_revert<T>(before: Vec<T>, applied: Vec<T>, token: RevertArbitrary<T>, after: Vec<T>)
    requires
        token.value@ == before@,
        token.revert_ensures(applied, after),
    ensures
        after@ == before@,
{
}

} // verus!
