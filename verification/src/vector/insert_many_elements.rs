use super::{remove_range, VecMutator};
use crate::mutations::RevertMutation;
use std::ops::Range;
use vstd::prelude::*;

verus! {

/// Inserts `nbr_added_elements` elements at one place of a vector; `repeated` asks for
/// copies of a single element.
#[derive(Debug, Clone, Copy, PartialEq, Eq)]
pub struct InsertManyElements {
    pub nbr_added_elements: usize,
    pub repeated: bool,
}

/// How many elements to insert, and whether they are copies of one element.
#[derive(Debug, Clone, Copy, PartialEq, Eq)]
pub struct InsertManyElementsStep {
    pub nbr_added_elements: usize,
    pub repeated: bool,
}

/// Inserts `els` at `idx`.
pub struct ConcreteInsertManyElements<T> {
    pub els: Vec<T>,
    pub idx: usize,
}

/// Removes the elements at the indices `idcs`.
#[derive(Debug)]
pub struct RevertInsertManyElements {
    pub idcs: Range<usize>,
}

impl<T> RevertMutation<Vec<T>> for RevertInsertManyElements {
    open spec fn revert_requires(&self, value: Vec<T>) -> bool {
        self.idcs.start <= self.idcs.end <= value@.len()
    }

    open spec fn revert_ensures(&self, before: Vec<T>, after: Vec<T>) -> bool {
        after@ == before@.take(self.idcs.start as int) + before@.skip(self.idcs.end as int)
    }

    fn revert(self, value: &mut Vec<T>) {
        remove_range(value, self.idcs.start, self.idcs.end);
    }
}

/// Inserts the elements `els`, in order, at index `idx` of `v`.
pub fn insert_many<T>(v: &mut Vec<T>, idx: usize, els: Vec<T>)
    requires
        idx <= old(v)@.len(),
    ensures
        final(v)@ == old(v)@.take(idx as int) + els@ + old(v)@.skip(idx as int),
{
    let ghost v0 = v@;
    let ghost e0 = els@;
    let mut moved = v.split_off(idx);
    let mut els = els;
    v.append(&mut els);
    v.append(&mut moved);
    assert(v@ =~= v0.take(idx as int) + e0 + v0.skip(idx as int));
}

/// The elements can be inserted when the elements can vary and the vector stays within
/// the greatest length.
pub open spec fn can_insert_many(m: &VecMutator, len: nat, nbr: nat) -> bool {
    !m.element_max_complexity_is_zero && len + nbr <= m.max_len()
}

impl InsertManyElements {
    /// Insertions at random, when possible.
    pub fn default_random_step<T>(&self, mutator: &VecMutator, value: &Vec<T>) -> (step: Option<InsertManyElementsStep>)
        requires
            value@.len() + self.nbr_added_elements <= usize::MAX,
        ensures
            step == (if can_insert_many(mutator, value@.len(), self.nbr_added_elements as nat) {
                Some(InsertManyElementsStep { nbr_added_elements: self.nbr_added_elements, repeated: self.repeated })
            } else {
                None
            }),
    {
        if mutator.element_max_complexity_is_zero {
            return None;
        }
        if value.len() + self.nbr_added_elements > mutator.len_end() {
            None
        } else {
            Some(InsertManyElementsStep { nbr_added_elements: self.nbr_added_elements, repeated: self.repeated })
        }
    }

    /// Insertions in order: the same as at random.
    pub fn default_step<T>(&self, mutator: &VecMutator, value: &Vec<T>) -> (step: Option<InsertManyElementsStep>)
        requires
            value@.len() + self.nbr_added_elements <= usize::MAX,
        ensures
            step == (if can_insert_many(mutator, value@.len(), self.nbr_added_elements as nat) {
                Some(InsertManyElementsStep { nbr_added_elements: self.nbr_added_elements, repeated: self.repeated })
            } else {
                None
            }),
    {
        if mutator.element_max_complexity_is_zero {
            return None;
        }
        self.default_random_step(mutator, value)
    }

    /// A candidate insertion is kept unless it inserts nothing.
    pub fn from_candidate<T>(candidate: ConcreteInsertManyElements<T>) -> (mutation: Option<ConcreteInsertManyElements<T>>)
        ensures
            candidate.els@.len() == 0 ==> mutation is None,
            candidate.els@.len() > 0 ==> mutation == Some(candidate),
    {
        if candidate.els.len() == 0 {
            None
        } else {
            Some(candidate)
        }
    }

    /// Inserts the elements and gives the token that removes them.
    pub fn apply<T>(mutation: ConcreteInsertManyElements<T>, value: &mut Vec<T>) -> (revert: RevertInsertManyElements)
        requires
            mutation.idx <= old(value)@.len(),
            old(value)@.len() + mutation.els@.len() <= usize::MAX,
        ensures
            final(value)@ == old(value)@.take(mutation.idx as int) + mutation.els@ + old(value)@.skip(mutation.idx as int),
            revert.idcs.start == mutation.idx,
            revert.idcs.end == mutation.idx + mutation.els@.len(),
    {
        let idcs = mutation.idx..mutation.idx + mutation.els.len();
        insert_many(value, mutation.idx, mutation.els);
        RevertInsertManyElements { idcs }
    }
}

/// Inserting elements and removing them again gives the vector that was there.
pub proof fn lemma_insert_many_then_revert<T>(v: Seq<T>, idx: int, els: Seq<T>)
    requires
        0 <= idx <= v.len(),
    ensures
        ({
            let w = v.take(idx) + els + v.skip(idx);
            w.take(idx) + w.skip(idx + els.len()) == v
        }),
{
    let w = v.take(idx) + els + v.skip(idx);
    assert(w.take(idx) + w.skip(idx + els.len()) =~= v);
}

} // verus!
