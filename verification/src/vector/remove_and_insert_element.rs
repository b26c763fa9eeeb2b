use super::{random_usize_in, VecMutator};
use crate::mutations::RevertMutation;
use vstd::prelude::*;

verus! {

/// Removes one element of a vector and inserts a new one at another index.
pub struct RemoveAndInsertElement;

/// A removal and an insertion at random.
#[derive(Debug, Clone, Copy, PartialEq, Eq)]
pub struct RemoveAndInsertElementRandomStep;

/// Removes the element at `remove_idx`, then inserts `inserted_el` at `insert_idx`.
pub struct ConcreteRemoveAndInsertElement<T> {
    pub remove_idx: usize,
    pub insert_idx: usize,
    pub inserted_el: T,
}

/// Removes the element at `remove_at_idx`, then inserts `insert_el` at `insert_at_idx`.
pub struct RevertRemoveAndInsertElement<T> {
    pub remove_at_idx: usize,
    pub insert_at_idx: usize,
    pub insert_el: T,
}

/// `v` with the element at `remove_idx` removed, then `el` inserted at `insert_idx`.
pub open spec fn removed_and_inserted<T>(v: Seq<T>, remove_idx: int, insert_idx: int, el: T) -> Seq<T> {
    v.remove(remove_idx).insert(insert_idx, el)
}

impl<T> RevertMutation<Vec<T>> for RevertRemoveAndInsertElement<T> {
    open spec fn revert_requires(&self, value: Vec<T>) -> bool {
        self.remove_at_idx < value@.len() && self.insert_at_idx < value@.len()
    }

    open spec fn revert_ensures(&self, before: Vec<T>, after: Vec<T>) -> bool {
        after@ == removed_and_inserted(before@, self.remove_at_idx as int, self.insert_at_idx as int, self.insert_el)
    }

    fn revert(self, value: &mut Vec<T>) {
        let _ = value.remove(self.remove_at_idx);
        value.insert(self.insert_at_idx, self.insert_el);
    }
}

/// The `choice`-th index of `0..=len - 1` other than `remove_idx`.
pub fn insertion_index(choice: usize, remove_idx: usize) -> (idx: usize)
    requires
        choice < usize::MAX,
    ensures
        idx == (if choice < remove_idx { choice } else { (choice + 1) as usize }),
        idx != remove_idx,
{
    if choice < remove_idx {
        choice
    } else {
        choice + 1
    }
}

impl RemoveAndInsertElement {
    /// A removal and an insertion, when the elements can vary and there are at least two
    /// of them (with a single element it is the same as mutating it).
    pub fn default_random_step<T>(&self, mutator: &VecMutator, value: &Vec<T>) -> (step: Option<RemoveAndInsertElementRandomStep>)
        ensures
            step is Some <==> !mutator.element_max_complexity_is_zero && value@.len() > 1,
    {
        if mutator.element_max_complexity_is_zero {
            return None;
        }
        if value.len() <= 1 {
            return None;
        }
        Some(RemoveAndInsertElementRandomStep)
    }

    /// Removes an element drawn at random and inserts `inserted_el`, an element that the
    /// element mutator generated, at another index drawn at random.
    pub fn random<T>(mutator: &VecMutator, value: &Vec<T>, inserted_el: T) -> (mutation: ConcreteRemoveAndInsertElement<T>)
        requires
            value@.len() > 1,
        ensures
            mutation.remove_idx < value@.len(),
            mutation.insert_idx < value@.len(),
            mutation.insert_idx != mutation.remove_idx,
            mutation.inserted_el == inserted_el,
    {
        let remove_idx = random_usize_in(&mutator.rng, 0, value.len() - 1);
        let choice = random_usize_in(&mutator.rng, 0, value.len() - 2);
        let insert_idx = insertion_index(choice, remove_idx);
        ConcreteRemoveAndInsertElement { remove_idx, insert_idx, inserted_el }
    }

    /// Removals and insertions in order: the same as at random.
    pub fn default_step<T>(&self, mutator: &VecMutator, value: &Vec<T>) -> (step: Option<RemoveAndInsertElementRandomStep>)
        ensures
            step is Some <==> !mutator.element_max_complexity_is_zero && value@.len() > 1,
    {
        self.default_random_step(mutator, value)
    }

    /// The next removal and insertion in order is always one at random.
    pub fn from_step<T>(mutator: &VecMutator, value: &Vec<T>, inserted_el: T) -> (mutation: Option<ConcreteRemoveAndInsertElement<T>>)
        requires
            value@.len() > 1,
        ensures
            mutation matches Some(m) && m.remove_idx < value@.len() && m.insert_idx < value@.len()
                && m.insert_idx != m.remove_idx && m.inserted_el == inserted_el,
    {
        Some(Self::random(mutator, value, inserted_el))
    }

    /// Removes and inserts, and gives the token that removes the inserted element and
    /// puts the removed one back.
    pub fn apply<T>(mutation: ConcreteRemoveAndInsertElement<T>, value: &mut Vec<T>) -> (revert: RevertRemoveAndInsertElement<T>)
        requires
            mutation.remove_idx < old(value)@.len(),
            mutation.insert_idx < old(value)@.len(),
        ensures
            final(value)@ == removed_and_inserted(
                old(value)@,
                mutation.remove_idx as int,
                mutation.insert_idx as int,
                mutation.inserted_el,
            ),
            revert.remove_at_idx == mutation.insert_idx,
            revert.insert_at_idx == mutation.remove_idx,
            revert.insert_el == old(value)@[mutation.remove_idx as int],
    {
        let removed_el = value.remove(mutation.remove_idx);
        value.insert(mutation.insert_idx, mutation.inserted_el);
        RevertRemoveAndInsertElement {
            remove_at_idx: mutation.insert_idx,
            insert_at_idx: mutation.remove_idx,
            insert_el: removed_el,
        }
    }
}

/// Removing an element and inserting another, then undoing it, gives the vector that was
/// there.
pub proof fn lemma_remove_and_insert_then_revert<T>(v: Seq<T>, remove_idx: int, insert_idx: int, el: T)
    requires
        0 <= remove_idx < v.len(),
        0 <= insert_idx < v.len(),
    ensures
        removed_and_inserted(removed_and_inserted(v, remove_idx, insert_idx, el), insert_idx, remove_idx, v[remove_idx])
            == v,
{
    let w = removed_and_inserted(v, remove_idx, insert_idx, el);
    assert(w.remove(insert_idx) =~= v.remove(remove_idx));
    assert(v.remove(remove_idx).insert(remove_idx, v[remove_idx]) =~= v);
}

} // verus!
