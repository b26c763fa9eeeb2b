//! The token of any of the vector mutations, which undoes it.

use super::arbitrary::RevertArbitrary;
use super::copy_element::RevertCopyElement;
use super::crossover_insert_slice::RevertCrossoverInsertSlice;
use super::crossover_replace_element::RevertCrossoverReplaceElement;
use super::insert_element::RevertInsertElement;
use super::insert_many_elements::RevertInsertManyElements;
use super::mutate_element::RevertMutateElement;
use super::only_choose_length::RevertOnlyChooseLength;
use super::remove::RevertRemove;
use super::remove_and_insert_element::RevertRemoveAndInsertElement;
use super::swap_elements::RevertSwapElements;
use crate::mutations::{NoMutation, RevertMutation};
use vstd::prelude::*;

verus! {

/// The token of one of the vector mutations.
pub enum RevertVectorMutation<T> {
    NoMutation(NoMutation),
    CopyElement(RevertCopyElement),
    Remove(RevertRemove<T>),
    MutateElement(RevertMutateElement<T>),
    InsertElement(RevertInsertElement),
    SwapElements(RevertSwapElements),
    InsertManyElements(RevertInsertManyElements),
    RemoveAndInsertElement(RevertRemoveAndInsertElement<T>),
    OnlyChooseLength(RevertOnlyChooseLength<T>),
    Arbitrary(RevertArbitrary<T>),
    CrossoverReplaceElement(RevertCrossoverReplaceElement<T>),
    CrossoverInsertSlice(RevertCrossoverInsertSlice<T>),
}

impl<T> RevertMutation<Vec<T>> for RevertVectorMutation<T> {
    open spec fn revert_requires(&self, value: Vec<T>) -> bool {
        match self {
            RevertVectorMutation::NoMutation(r) => RevertMutation::<Vec<T>>::revert_requires(r, value),
            RevertVectorMutation::CopyElement(r) => RevertMutation::<Vec<T>>::revert_requires(r, value),
            RevertVectorMutation::Remove(r) => r.revert_requires(value),
            RevertVectorMutation::MutateElement(r) => r.revert_requires(value),
            RevertVectorMutation::InsertElement(r) => RevertMutation::<Vec<T>>::revert_requires(r, value),
            RevertVectorMutation::SwapElements(r) => RevertMutation::<Vec<T>>::revert_requires(r, value),
            RevertVectorMutation::InsertManyElements(r) => RevertMutation::<Vec<T>>::revert_requires(r, value),
            RevertVectorMutation::RemoveAndInsertElement(r) => r.revert_requires(value),
            RevertVectorMutation::OnlyChooseLength(r) => r.revert_requires(value),
            RevertVectorMutation::Arbitrary(r) => r.revert_requires(value),
            RevertVectorMutation::CrossoverReplaceElement(r) => r.revert_requires(value),
            RevertVectorMutation::CrossoverInsertSlice(r) => r.revert_requires(value),
        }
    }

    open spec fn revert_ensures(&self, before: Vec<T>, after: Vec<T>) -> bool {
        match self {
            RevertVectorMutation::NoMutation(r) => RevertMutation::<Vec<T>>::revert_ensures(r, before, after),
            RevertVectorMutation::CopyElement(r) => RevertMutation::<Vec<T>>::revert_ensures(r, before, after),
            RevertVectorMutation::Remove(r) => r.revert_ensures(before, after),
            RevertVectorMutation::MutateElement(r) => r.revert_ensures(before, after),
            RevertVectorMutation::InsertElement(r) => RevertMutation::<Vec<T>>::revert_ensures(r, before, after),
            RevertVectorMutation::SwapElements(r) => RevertMutation::<Vec<T>>::revert_ensures(r, before, after),
            RevertVectorMutation::InsertManyElements(r) => RevertMutation::<Vec<T>>::revert_ensures(r, before, after),
            RevertVectorMutation::RemoveAndInsertElement(r) => r.revert_ensures(before, after),
            RevertVectorMutation::OnlyChooseLength(r) => r.revert_ensures(before, after),
            RevertVectorMutation::Arbitrary(r) => r.revert_ensures(before, after),
            RevertVectorMutation::CrossoverReplaceElement(r) => r.revert_ensures(before, after),
            RevertVectorMutation::CrossoverInsertSlice(r) => r.revert_ensures(before, after),
        }
    }

    fn revert(self, value: &mut Vec<T>) {
        match self {
            RevertVectorMutation::NoMutation(r) => r.revert(value),
            RevertVectorMutation::CopyElement(r) => r.revert(value),
            RevertVectorMutation::Remove(r) => r.revert(value),
            RevertVectorMutation::MutateElement(r) => r.revert(value),
            RevertVectorMutation::InsertElement(r) => r.revert(value),
            RevertVectorMutation::SwapElements(r) => r.revert(value),
            RevertVectorMutation::InsertManyElements(r) => r.revert(value),
            RevertVectorMutation::RemoveAndInsertElement(r) => r.revert(value),
            RevertVectorMutation::OnlyChooseLength(r) => r.revert(value),
            RevertVectorMutation::Arbitrary(r) => r.revert(value),
            RevertVectorMutation::CrossoverReplaceElement(r) => r.revert(value),
            RevertVectorMutation::CrossoverInsertSlice(r) => r.revert(value),
        }
    }
}

} // verus!
