use super::{random_usize_in, VecMutator};
use crate::mutations::RevertMutation;
use vstd::prelude::*;

verus! {

/// Removes one element of a vector.
pub struct Remove;

/// The index of the next element to remove.
#[derive(Debug, Clone, Copy, PartialEq, Eq)]
pub struct RemoveStep {
    pub idx: usize,
}

/// Removes the element at `idx`.
#[derive(Debug, Clone, Copy, PartialEq, Eq)]
pub struct ConcreteRemove {
    pub idx: usize,
}

/// Puts `element` back at `idx`.
pub struct RevertRemove<T> {
    pub idx: usize,
    pub element: T,
}

impl<T> RevertMutation<Vec<T>> for RevertRemove<T> {
    open spec fn revert_requires(&self, value: Vec<T>) -> bool {
        self.idx <= value@.len()
    }

    open spec fn revert_ensures(&self, before: Vec<T>, after: Vec<T>) -> bool {
        after@ == before@.insert(self.idx as int, self.element)
    }

    fn revert(self, value: &mut Vec<T>) {
        value.insert(self.idx, self.element);
    }
}

/// An element can be removed when the elements can vary and the vector is longer than
/// the least length.
pub open spec fn can_remove(m: &VecMutator, len: nat) -> bool {
    !m.element_max_complexity_is_zero && len > m.min_len()
}

impl Remove {
    /// Removals at random, when possible: the index of the element is drawn at random.
    pub fn default_random_step<T>(&self, mutator: &VecMutator, value: &Vec<T>) -> (step: Option<RemoveStep>)
        ensures
            step is Some <==> can_remove(mutator, value@.len()),
            step matches Some(s) ==> s.idx < value@.len(),
    {
        if mutator.element_max_complexity_is_zero {
            return None;
        }
        if value.len() <= mutator.len_start() {
            None
        } else {
            Some(RemoveStep { idx: random_usize_in(&mutator.rng, 0, value.len() - 1) })
        }
    }

    /// The removal of a random step.
    pub fn random(random_step: &RemoveStep) -> (mutation: ConcreteRemove)
        ensures
            mutation.idx == random_step.idx,
    {
        ConcreteRemove { idx: random_step.idx }
    }

    /// Removals in order, from the first element, when possible.
    pub fn default_step<T>(&self, mutator: &VecMutator, value: &Vec<T>) -> (step: Option<RemoveStep>)
        ensures
            step == (if can_remove(mutator, value@.len()) { Some(RemoveStep { idx: 0 }) } else { None }),
    {
        if mutator.element_max_complexity_is_zero {
            return None;
        }
        if value.len() <= mutator.len_start() {
            None
        } else {
            Some(RemoveStep { idx: 0 })
        }
    }

    /// The next removal in order: each index of the vector once, then nothing.
    pub fn from_step<T>(value: &Vec<T>, step: &mut RemoveStep) -> (mutation: Option<ConcreteRemove>)
        ensures
            old(step).idx < value@.len() ==> mutation == Some(ConcreteRemove { idx: old(step).idx })
                && final(step).idx == old(step).idx + 1,
            old(step).idx >= value@.len() ==> mutation is None && *final(step) == *old(step),
    {
        if step.idx < value.len() {
            let x = ConcreteRemove { idx: step.idx };
            step.idx = step.idx + 1;
            Some(x)
        } else {
            None
        }
    }

    /// Removes the element and gives the token that puts it back.
    pub fn apply<T>(mutation: ConcreteRemove, value: &mut Vec<T>) -> (revert: RevertRemove<T>)
        requires
            mutation.idx < old(value)@.len(),
        ensures
            final(value)@ == old(value)@.remove(mutation.idx as int),
            revert.idx == mutation.idx,
            revert.element == old(value)@[mutation.idx as int],
    {
        let removed = value.remove(mutation.idx);
        RevertRemove { idx: mutation.idx, element: removed }
    }
}

/// Removing an element and putting it back gives the vector that was there.
pub proof fn lemma_remove_then_revert<T>(v: Seq<T>, idx: int)
    requires
        0 <= idx < v.len(),
    ensures
        v.remove(idx).insert(idx, v[idx]) == v,
{
    assert(v.remove(idx).insert(idx, v[idx]) =~= v);
}

} // verus!
