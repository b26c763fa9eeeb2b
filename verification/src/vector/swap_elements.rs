use super::{random_usize_in, swap_elements, VecMutator};
use crate::mutations::RevertMutation;
use vstd::prelude::*;

verus! {

/// Exchanges two elements of a vector.
pub struct SwapElements;

/// The next pair of indices to exchange.
#[derive(Debug, Clone, Copy, PartialEq, Eq)]
pub struct SwapElementsStep {
    pub idx_1: usize,
    pub idx_2: usize,
}

/// Exchanges the elements at `idx_1` and `idx_2`.
#[derive(Debug, Clone, Copy, PartialEq, Eq)]
pub struct ConcreteSwapElements {
    pub idx_1: usize,
    pub idx_2: usize,
}

/// Exchanges the elements at `idx_1` and `idx_2` again.
#[derive(Debug, Clone, Copy, PartialEq, Eq)]
pub struct RevertSwapElements {
    pub idx_1: usize,
    pub idx_2: usize,
}

/// The vector where the elements at `i` and `j` are exchanged.
pub open spec fn swapped<T>(v: Seq<T>, i: int, j: int) -> Seq<T> {
    v.update(i, v[j]).update(j, v[i])
}

impl<T> RevertMutation<Vec<T>> for RevertSwapElements {
    open spec fn revert_requires(&self, value: Vec<T>) -> bool {
        self.idx_1 < value@.len() && self.idx_2 < value@.len()
    }

    open spec fn revert_ensures(&self, before: Vec<T>, after: Vec<T>) -> bool {
        after@ == swapped(before@, self.idx_1 as int, self.idx_2 as int)
    }

    fn revert(self, value: &mut Vec<T>) {
        swap_elements(value, self.idx_1, self.idx_2);
    }
}

/// The pairs of indices still to try, `idx_1 < idx_2`, are those of a vector of
/// length `len`.
pub open spec fn swap_step_wf(step: SwapElementsStep, len: nat) -> bool {
    &&& step.idx_1 < step.idx_2
    &&& step.idx_1 + 1 < len ==> step.idx_2 < len
}

impl SwapElements {
    /// An exchange of two different elements drawn at random, when the elements can vary
    /// and there are at least two of them.
    pub fn default_random_step<T>(&self, mutator: &VecMutator, value: &Vec<T>) -> (step: Option<SwapElementsStep>)
        ensures
            step is Some <==> !mutator.element_max_complexity_is_zero && value@.len() > 1,
            step matches Some(s) ==> s.idx_1 < value@.len() && s.idx_2 < value@.len() && s.idx_1 != s.idx_2,
    {
        if mutator.element_max_complexity_is_zero {
            return None;
        }
        if value.len() <= 1 {
            None
        } else {
            let idx_1 = random_usize_in(&mutator.rng, 0, value.len() - 1);
            let choice_other = random_usize_in(&mutator.rng, 0, value.len() - 2);
            Some(Self::step_from_choices(idx_1, choice_other))
        }
    }

    /// The pair made of `idx_1` and the `choice_other`-th of the other indices.
    pub fn step_from_choices(idx_1: usize, choice_other: usize) -> (step: SwapElementsStep)
        requires
            choice_other < usize::MAX,
        ensures
            step.idx_1 == idx_1,
            step.idx_2 == (if choice_other < idx_1 { choice_other as int } else { choice_other + 1 }),
    {
        let idx_2 = if choice_other < idx_1 { choice_other } else { choice_other + 1 };
        SwapElementsStep { idx_1, idx_2 }
    }

    /// The exchange of a random step.
    pub fn random(random_step: &SwapElementsStep) -> (mutation: ConcreteSwapElements)
        ensures
            mutation.idx_1 == random_step.idx_1,
            mutation.idx_2 == random_step.idx_2,
    {
        ConcreteSwapElements { idx_1: random_step.idx_1, idx_2: random_step.idx_2 }
    }

    /// Exchanges in order, from the first two elements, when possible.
    pub fn default_step<T>(&self, mutator: &VecMutator, value: &Vec<T>) -> (step: Option<SwapElementsStep>)
        ensures
            step == (if !mutator.element_max_complexity_is_zero && value@.len() > 1 {
                Some(SwapElementsStep { idx_1: 0, idx_2: 1 })
            } else {
                None
            }),
    {
        if mutator.element_max_complexity_is_zero {
            return None;
        }
        if value.len() <= 1 {
            None
        } else {
            Some(SwapElementsStep { idx_1: 0, idx_2: 1 })
        }
    }

    /// The next exchange in order: every pair `idx_1 < idx_2` once, then nothing.
    pub fn from_step<T>(value: &Vec<T>, step: &mut SwapElementsStep) -> (mutation: Option<ConcreteSwapElements>)
        requires
            value@.len() > 0,
            swap_step_wf(*old(step), value@.len()),
        ensures
            old(step).idx_1 + 1 >= value@.len() ==> mutation is None && *final(step) == *old(step),
            old(step).idx_1 + 1 < value@.len() ==> {
                &&& mutation == Some(ConcreteSwapElements { idx_1: old(step).idx_1, idx_2: old(step).idx_2 })
                &&& if old(step).idx_2 + 1 == value@.len() {
                    final(step).idx_1 == old(step).idx_1 + 1 && final(step).idx_2 == old(step).idx_1 + 2
                } else {
                    final(step).idx_1 == old(step).idx_1 && final(step).idx_2 == old(step).idx_2 + 1
                }
            },
            swap_step_wf(*final(step), value@.len()),
            mutation matches Some(c) ==> c.idx_1 < c.idx_2 < value@.len(),
    {
        if step.idx_1 >= value.len() - 1 {
            None
        } else {
            let x = ConcreteSwapElements { idx_1: step.idx_1, idx_2: step.idx_2 };
            step.idx_2 = step.idx_2 + 1;
            if step.idx_2 == value.len() {
                step.idx_1 = step.idx_1 + 1;
                step.idx_2 = step.idx_1 + 1;
            }
            Some(x)
        }
    }

    /// Exchanges the two elements and gives the token that exchanges them back.
    pub fn apply<T>(mutation: ConcreteSwapElements, value: &mut Vec<T>) -> (revert: RevertSwapElements)
        requires
            mutation.idx_1 < old(value)@.len(),
            mutation.idx_2 < old(value)@.len(),
        ensures
            final(value)@ == swapped(old(value)@, mutation.idx_1 as int, mutation.idx_2 as int),
            revert.idx_1 == mutation.idx_1,
            revert.idx_2 == mutation.idx_2,
    {
        swap_elements(value, mutation.idx_1, mutation.idx_2);
        RevertSwapElements { idx_1: mutation.idx_1, idx_2: mutation.idx_2 }
    }
}

/// Exchanging two elements twice gives the vector that was there.
pub proof fn lemma_swap_then_revert<T>(v: Seq<T>, i: int, j: int)
    requires
        0 <= i < v.len(),
        0 <= j < v.len(),
    ensures
        swapped(swapped(v, i, j), i, j) == v,
{
    assert(swapped(swapped(v, i, j), i, j) =~= v);
}

} // verus!
