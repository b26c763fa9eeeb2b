use super::{random_usize_in, VecMutator};
use crate::mutations::RevertMutation;
use vstd::prelude::*;

verus! {

/// Inserts one new element in a vector.
pub struct InsertElement;

/// An insertion at random.
#[derive(Debug, Clone, Copy, PartialEq, Eq)]
pub struct InsertElementRandomStep;

/// For each index where an element can be inserted, the search of the element mutator
/// through the new elements.
pub struct InsertElementStep<A> {
    pub arbitrary_steps: Vec<(usize, A)>,
}

/// Inserts `el` at `idx`.
pub struct ConcreteInsertElement<T> {
    pub el: T,
    pub idx: usize,
}

/// Removes the element at `idx`.
#[derive(Debug, Clone, Copy, PartialEq, Eq)]
pub struct RevertInsertElement {
    pub idx: usize,
}

impl<T> RevertMutation<Vec<T>> for RevertInsertElement {
    open spec fn revert_requires(&self, value: Vec<T>) -> bool {
        self.idx < value@.len()
    }

    open spec fn revert_ensures(&self, before: Vec<T>, after: Vec<T>) -> bool {
        after@ == before@.remove(self.idx as int)
    }

    fn revert(self, value: &mut Vec<T>) {
        let _ = value.remove(self.idx);
    }
}

/// An element can be inserted when the elements can vary and the vector is shorter than
/// the greatest length.
pub open spec fn can_insert(m: &VecMutator, len: nat) -> bool {
    !m.element_max_complexity_is_zero && len < m.max_len()
}

impl InsertElement {
    /// An insertion at random, when possible.
    pub fn default_random_step<T>(&self, mutator: &VecMutator, value: &Vec<T>) -> (step: Option<InsertElementRandomStep>)
        ensures
            step is Some <==> can_insert(mutator, value@.len()),
    {
        if mutator.element_max_complexity_is_zero {
            return None;
        }
        if value.len() >= mutator.len_end() {
            None
        } else {
            Some(InsertElementRandomStep)
        }
    }

    /// Inserts the new element `el` at an index drawn at random.
    pub fn random<T>(mutator: &VecMutator, value: &Vec<T>, el: T) -> (mutation: ConcreteInsertElement<T>)
        ensures
            mutation.el == el,
            mutation.idx <= value@.len(),
    {
        let idx = random_usize_in(&mutator.rng, 0, value.len());
        ConcreteInsertElement { el, idx }
    }

    /// Insertions in order, when possible: at every index from the first to after the
    /// last, each with the first step of the element mutator's search.
    pub fn default_step<T, A: Copy>(&self, mutator: &VecMutator, value: &Vec<T>, first: A) -> (step: Option<InsertElementStep<A>>)
        ensures
            step is Some <==> can_insert(mutator, value@.len()),
            step matches Some(s) ==> s.arbitrary_steps@.len() == value@.len() + 1 && forall|i: int|
                0 <= i <= value@.len() ==> #[trigger] s.arbitrary_steps@[i] == (i as usize, first),
    {
        if mutator.element_max_complexity_is_zero {
            return None;
        }
        if value.len() >= mutator.len_end() {
            None
        } else {
            let mut arbitrary_steps: Vec<(usize, A)> = Vec::new();
            let mut i: usize = 0;
            while i <= value.len()
                invariant
                    i <= value@.len() + 1,
                    value@.len() < mutator.max_len(),
                    arbitrary_steps@.len() == i,
                    forall|k: int| 0 <= k < i ==> #[trigger] arbitrary_steps@[k] == (k as usize, first),
                decreases value@.len() + 1 - i,
            {
                arbitrary_steps.push((i, first));
                i = i + 1;
            }
            Some(InsertElementStep { arbitrary_steps })
        }
    }

    /// The next insertion in order is drawn at random among the indices whose search for a
    /// new element is not exhausted: the position of one of them in the step, or none when
    /// all are.
    pub fn choose_step<A>(mutator: &VecMutator, step: &InsertElementStep<A>) -> (choice: Option<usize>)
        ensures
            choice is None <==> step.arbitrary_steps@.len() == 0,
            choice matches Some(c) ==> c < step.arbitrary_steps@.len(),
    {
        if step.arbitrary_steps.len() == 0 {
            None
        } else {
            Some(random_usize_in(&mutator.rng, 0, step.arbitrary_steps.len() - 1))
        }
    }

    /// The insertion for the `choice`-th index of the step, given what the element
    /// mutator's search for it gave: `Some(el)` is inserted at that index; `None` means
    /// that the search is exhausted, and the index leaves the step.
    pub fn from_outcome<T, A>(step: &mut InsertElementStep<A>, choice: usize, outcome: Option<T>) -> (mutation: Option<ConcreteInsertElement<T>>)
        requires
            choice < old(step).arbitrary_steps@.len(),
        ensures
            match outcome {
                Some(el) => {
                    &&& mutation matches Some(m) && m.el == el && m.idx == old(step).arbitrary_steps@[choice as int].0
                    &&& final(step).arbitrary_steps@ == old(step).arbitrary_steps@
                },
                None => {
                    &&& mutation is None
                    &&& final(step).arbitrary_steps@ == old(step).arbitrary_steps@.remove(choice as int)
                },
            },
    {
        match outcome {
            Some(el) => {
                let idx = step.arbitrary_steps[choice].0;
                Some(ConcreteInsertElement { el, idx })
            },
            None => {
                let _ = step.arbitrary_steps.remove(choice);
                None
            },
        }
    }

    /// Inserts the element and gives the token that removes it.
    pub fn apply<T>(mutation: ConcreteInsertElement<T>, value: &mut Vec<T>) -> (revert: RevertInsertElement)
        requires
            mutation.idx <= old(value)@.len(),
        ensures
            final(value)@ == old(value)@.insert(mutation.idx as int, mutation.el),
            revert.idx == mutation.idx,
    {
        let idx = mutation.idx;
        value.insert(idx, mutation.el);
        RevertInsertElement { idx }
    }
}

/// Inserting an element and removing it again gives the vector that was there.
pub proof fn lemma_insert_then_revert<T>(v: Seq<T>, idx: int, el: T)
    requires
        0 <= idx <= v.len(),
    ensures
        v.insert(idx, el).remove(idx) == v,
{
    assert(v.insert(idx, el).remove(idx) =~= v);
}

} // verus!
