use super::crossover_insert_slice::replace_element;
use super::{random_usize_in, VecMutator};
use crate::mutations::RevertMutation;
use vstd::prelude::*;

verus! {

/// Replaces an element of a vector by a value seen before; when there is none, mutates
/// the element instead.
pub struct CrossoverReplaceElement;

/// Crossovers in order, for a vector of `nbr_elements` elements. Which values seen before
/// each element has been offered is kept by whoever offers them.
#[derive(Debug, Clone, Copy, PartialEq, Eq)]
pub struct CrossoverReplaceElementStep {
    pub nbr_elements: usize,
}

/// Either mutates the element at an index, or puts `el` at `idx`.
pub enum ConcreteCrossoverReplaceElement<T> {
    Random(usize),
    ReplaceElement { el: T, idx: usize },
}

/// Puts back the element that was at an index: after a mutation of the element, or after
/// its replacement.
pub enum RevertCrossoverReplaceElement<T> {
    Random(T, usize),
    ReplaceElement { el: T, idx: usize },
}

impl<T> RevertMutation<Vec<T>> for RevertCrossoverReplaceElement<T> {
    open spec fn revert_requires(&self, value: Vec<T>) -> bool {
        match self {
            RevertCrossoverReplaceElement::Random(_, idx) => *idx < value@.len(),
            RevertCrossoverReplaceElement::ReplaceElement { idx, .. } => *idx < value@.len(),
        }
    }

    open spec fn revert_ensures(&self, before: Vec<T>, after: Vec<T>) -> bool {
        match self {
            RevertCrossoverReplaceElement::Random(el, idx) => after@ == before@.update(*idx as int, *el),
            RevertCrossoverReplaceElement::ReplaceElement { el, idx } => after@ == before@.update(*idx as int, *el),
        }
    }

    fn revert(self, value: &mut Vec<T>) {
        match self {
            RevertCrossoverReplaceElement::Random(el, idx) => {
                let _ = replace_element(value, idx, el);
            },
            RevertCrossoverReplaceElement::ReplaceElement { el, idx } => {
                let _ = replace_element(value, idx, el);
            },
        }
    }
}

impl CrossoverReplaceElement {
    /// There is no crossover at random.
    pub fn default_random_step<T>(&self, mutator: &VecMutator, value: &Vec<T>) -> (step: Option<CrossoverReplaceElementStep>)
        ensures
            step is None,
    {
        None
    }

    /// Crossovers in order, when the elements have choices and there is one.
    pub fn default_step<T>(&self, mutator: &VecMutator, value: &Vec<T>) -> (step: Option<CrossoverReplaceElementStep>)
        ensures
            step == (if !mutator.element_search_space_is_zero && value@.len() > 0 {
                Some(CrossoverReplaceElementStep { nbr_elements: value@.len() as usize })
            } else {
                None
            }),
    {
        if mutator.element_search_space_is_zero {
            return None;
        }
        if value.len() == 0 {
            None
        } else {
            Some(CrossoverReplaceElementStep { nbr_elements: value.len() })
        }
    }

    /// The index of the element that the next crossover is about, drawn at random.
    pub fn choose_index<T>(mutator: &VecMutator, value: &Vec<T>) -> (idx: usize)
        requires
            value@.len() > 0,
        ensures
            idx < value@.len(),
    {
        random_usize_in(&mutator.rng, 0, value.len() - 1)
    }

    /// The crossover at `idx`, given the value seen before that is offered for it, if any,
    /// and whether the element mutator accepts that value: a replacement by a copy of it
    /// when there is one and it is accepted, a mutation of the element otherwise.
    pub fn from_subvalue<T: Clone>(idx: usize, subvalue: Option<&T>, accepted: bool) -> (mutation: ConcreteCrossoverReplaceElement<T>)
        ensures
            match subvalue {
                Some(el) if accepted => mutation matches ConcreteCrossoverReplaceElement::ReplaceElement { el: copy, idx: i }
                    && i == idx && cloned(*el, copy),
                _ => mutation == ConcreteCrossoverReplaceElement::<T>::Random(idx),
            },
    {
        match subvalue {
            Some(el) => {
                if accepted {
                    ConcreteCrossoverReplaceElement::ReplaceElement { el: el.clone(), idx }
                } else {
                    ConcreteCrossoverReplaceElement::Random(idx)
                }
            },
            None => ConcreteCrossoverReplaceElement::Random(idx),
        }
    }

    /// Applies the crossover and gives the token that puts the old element back. For a
    /// mutation of the element, `new_el` is what the element mutator made of it.
    pub fn apply<T>(mutation: ConcreteCrossoverReplaceElement<T>, value: &mut Vec<T>, new_el: T) -> (revert: RevertCrossoverReplaceElement<T>)
        requires
            match mutation {
                ConcreteCrossoverReplaceElement::Random(idx) => idx < old(value)@.len(),
                ConcreteCrossoverReplaceElement::ReplaceElement { idx, .. } => idx < old(value)@.len(),
            },
        ensures
            match mutation {
                ConcreteCrossoverReplaceElement::Random(idx) => {
                    &&& final(value)@ == old(value)@.update(idx as int, new_el)
                    &&& revert == RevertCrossoverReplaceElement::Random(old(value)@[idx as int], idx)
                },
                ConcreteCrossoverReplaceElement::ReplaceElement { el, idx } => {
                    &&& final(value)@ == old(value)@.update(idx as int, el)
                    &&& revert == RevertCrossoverReplaceElement::ReplaceElement { el: old(value)@[idx as int], idx }
                },
            },
    {
        match mutation {
            ConcreteCrossoverReplaceElement::Random(idx) => {
                let old_el = replace_element(value, idx, new_el);
                RevertCrossoverReplaceElement::Random(old_el, idx)
            },
            ConcreteCrossoverReplaceElement::ReplaceElement { el, idx } => {
                let old_el = replace_element(value, idx, el);
                RevertCrossoverReplaceElement::ReplaceElement { el: old_el, idx }
            },
        }
    }
}

} // verus!
