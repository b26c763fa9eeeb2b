//! The mutation used when the element mutator can produce a single value: the vector
//! mutator then only chooses a length. With elements of type `()` and lengths in `2..=5`,
//! the vectors are `[(), ()]`, `[(), (), ()]`, `[(), (), (), ()]` and
//! `[(), (), (), (), ()]`, and nothing else.

use super::{random_usize_in, VecMutator};
use crate::mutations::RevertMutation;
use vstd::prelude::*;

verus! {

/// Replaces a vector by one of a chosen length, made of the single value of the elements.
pub struct OnlyChooseLength;

/// The next length to try in order.
#[derive(Debug, Clone, Copy, PartialEq, Eq)]
pub struct OnlyChooseLengthStep {
    pub length: usize,
}

/// A length chosen at random.
#[derive(Debug, Clone, Copy, PartialEq, Eq)]
pub struct OnlyChooseLengthRandomStep;

/// Gives the vector the length `length`.
#[derive(Debug, Clone, Copy, PartialEq, Eq)]
pub struct ConcreteOnlyChooseLength {
    pub length: usize,
}

/// Puts back the vector `replace_by` that was replaced.
pub struct RevertOnlyChooseLength<T> {
    pub replace_by: Vec<T>,
}

impl<T> RevertMutation<Vec<T>> for RevertOnlyChooseLength<T> {
    open spec fn revert_requires(&self, value: Vec<T>) -> bool {
        true
    }

    open spec fn revert_ensures(&self, before: Vec<T>, after: Vec<T>) -> bool {
        after@ == self.replace_by@
    }

    fn revert(self, value: &mut Vec<T>) {
        let mut replaced = self.replace_by;
        std::mem::swap(value, &mut replaced);
    }
}

/// `n` copies of `el`.
pub fn repeat_element<T: Clone>(el: &T, n: usize) -> (v: Vec<T>)
    ensures
        v@.len() == n,
        forall|i: int| 0 <= i < n ==> cloned(*el, #[trigger] v@[i]),
{
    let mut v: Vec<T> = Vec::new();
    let mut i: usize = 0;
    while i < n
        invariant
            i <= n,
            v@.len() == i,
            forall|k: int| 0 <= k < i ==> cloned(*el, #[trigger] v@[k]),
        decreases n - i,
    {
        v.push(el.clone());
        i = i + 1;
    }
    v
}

impl OnlyChooseLength {
    /// A length at random, when the element mutator produces a single value.
    pub fn default_random_step<T>(&self, mutator: &VecMutator, value: &Vec<T>) -> (step: Option<OnlyChooseLengthRandomStep>)
        ensures
            step is Some <==> mutator.element_search_space_is_zero,
    {
        if mutator.element_search_space_is_zero {
            Some(OnlyChooseLengthRandomStep)
        } else {
            None
        }
    }

    /// A length drawn at random from the least length up to the greater of the least
    /// length and `upperbound`, the greatest length whose complexity stays within the
    /// greatest complexity.
    pub fn random(mutator: &VecMutator, upperbound: usize) -> (mutation: ConcreteOnlyChooseLength)
        ensures
            mutator.min_len() <= mutation.length,
            mutation.length <= mutator.min_len() || mutation.length <= upperbound,
    {
        let start = mutator.len_start();
        let upper = if start < upperbound { upperbound } else { start };
        ConcreteOnlyChooseLength { length: random_usize_in(&mutator.rng, start, upper) }
    }

    /// Lengths in order, from the least one, when the element mutator produces a single
    /// value.
    pub fn default_step<T>(&self, mutator: &VecMutator, value: &Vec<T>) -> (step: Option<OnlyChooseLengthStep>)
        ensures
            step == (if mutator.element_search_space_is_zero {
                Some(OnlyChooseLengthStep { length: mutator.min_len() as usize })
            } else {
                None
            }),
    {
        if mutator.element_search_space_is_zero {
            Some(OnlyChooseLengthStep { length: mutator.len_start() })
        } else {
            None
        }
    }

    /// The next length in order, as long as it is within the greatest length and
    /// `fits`: its complexity is under the greatest complexity.
    pub fn from_step(mutator: &VecMutator, step: &mut OnlyChooseLengthStep, fits: bool) -> (mutation: Option<ConcreteOnlyChooseLength>)
        requires
            old(step).length <= mutator.max_len() && fits ==> old(step).length < usize::MAX,
        ensures
            old(step).length <= mutator.max_len() && fits ==> {
                &&& mutation == Some(ConcreteOnlyChooseLength { length: old(step).length })
                &&& final(step).length == old(step).length + 1
            },
            !(old(step).length <= mutator.max_len() && fits) ==> mutation is None && *final(step) == *old(step),
    {
        if step.length <= mutator.len_end() && fits {
            let x = ConcreteOnlyChooseLength { length: step.length };
            step.length = step.length + 1;
            Some(x)
        } else {
            None
        }
    }

    /// Puts in place of the vector `length` copies of `el`, the single value of the
    /// elements, and gives the token that puts the old vector back.
    pub fn apply<T: Clone>(mutation: ConcreteOnlyChooseLength, value: &mut Vec<T>, el: T) -> (revert: RevertOnlyChooseLength<T>)
        ensures
            final(value)@.len() == mutation.length,
            forall|i: int| 0 <= i < mutation.length ==> cloned(el, #[trigger] final(value)@[i]),
            revert.replace_by@ == old(value)@,
    {
        let mut replaced = repeat_element(&el, mutation.length);
        std::mem::swap(value, &mut replaced);
        RevertOnlyChooseLength { replace_by: replaced }
    }
}

} // verus!
