//! Mutations of vectors: each one changes a vector and gives back a token that undoes
//! the change.

pub(crate) use crate::random::{new_rng, random_usize_in};
use std::ops::RangeInclusive;
use vstd::prelude::*;

pub mod arbitrary;
pub mod copy_element;
pub mod crossover_insert_slice;
pub mod crossover_replace_element;
pub mod insert_element;
pub mod insert_many_elements;
pub mod mutate_element;
pub mod only_choose_length;
pub mod remove;
pub mod remove_and_insert_element;
pub mod swap_elements;
pub mod vec_mutation;

verus! {

/// What the vector mutations read of a vector mutator: the range of lengths it may
/// produce, its random number generator, whether the length of a vector adds to its
/// complexity, and two facts about the mutator of its elements: that their maximum
/// complexity is zero (it produces a single value) and that its search space is empty.
pub struct VecMutator {
    pub len_range: RangeInclusive<usize>,
    pub rng: fastrand::Rng,
    pub inherent_complexity: bool,
    pub element_max_complexity_is_zero: bool,
    pub element_search_space_is_zero: bool,
}

impl VecMutator {
    /// The least length of the vectors.
    pub open spec fn min_len(&self) -> nat {
        self.len_range@.start as nat
    }

    /// The greatest length of the vectors.
    pub open spec fn max_len(&self) -> nat {
        self.len_range@.end as nat
    }

    /// A vector mutator whose vectors have lengths within `len_range`, and whose length
    /// adds to their complexity.
    pub fn new(
        len_range: RangeInclusive<usize>,
        element_max_complexity_is_zero: bool,
        element_search_space_is_zero: bool,
    ) -> (m: VecMutator)
        ensures
            m.len_range == len_range,
            m.inherent_complexity,
            m.element_max_complexity_is_zero == element_max_complexity_is_zero,
            m.element_search_space_is_zero == element_search_space_is_zero,
    {
        VecMutator {
            len_range,
            rng: new_rng(),
            inherent_complexity: true,
            element_max_complexity_is_zero,
            element_search_space_is_zero,
        }
    }

    /// A vector mutator whose vectors have lengths within `len_range`, and whose length
    /// does not add to their complexity.
    pub fn new_without_inherent_complexity(
        len_range: RangeInclusive<usize>,
        element_max_complexity_is_zero: bool,
        element_search_space_is_zero: bool,
    ) -> (m: VecMutator)
        ensures
            m.len_range == len_range,
            !m.inherent_complexity,
            m.element_max_complexity_is_zero == element_max_complexity_is_zero,
            m.element_search_space_is_zero == element_search_space_is_zero,
    {
        VecMutator {
            len_range,
            rng: new_rng(),
            inherent_complexity: false,
            element_max_complexity_is_zero,
            element_search_space_is_zero,
        }
    }

    /// The least length of the vectors.
    pub fn len_start(&self) -> (n: usize)
        ensures
            n == self.min_len(),
    {
        *self.len_range.start()
    }

    /// The greatest length of the vectors.
    pub fn len_end(&self) -> (n: usize)
        ensures
            n == self.max_len(),
    {
        *self.len_range.end()
    }
}

/// The first step of the search through the vectors a mutator can produce.
#[derive(Debug, Clone, Copy, PartialEq, Eq)]
pub enum VecArbitraryStep {
    InnerMutatorIsUnit { length_step: usize },
    Normal { make_empty: bool },
}

impl VecMutator {
    /// When the mutator of the elements produces a single value, the search goes through
    /// the lengths, from the least one; otherwise it starts with the empty vector.
    pub fn default_arbitrary_step(&self) -> (step: VecArbitraryStep)
        ensures
            step == (if self.element_max_complexity_is_zero {
                VecArbitraryStep::InnerMutatorIsUnit { length_step: self.min_len() as usize }
            } else {
                VecArbitraryStep::Normal { make_empty: false }
            }),
    {
        if self.element_max_complexity_is_zero {
            VecArbitraryStep::InnerMutatorIsUnit { length_step: self.len_start() }
        } else {
            VecArbitraryStep::Normal { make_empty: false }
        }
    }
}

/// `x` brought within `[start, end]` (the start wins when the range is empty).
pub open spec fn clamp_spec(start: int, end: int, x: int) -> int {
    let lower = if x < start { start } else { x };
    if lower > end { end } else { lower }
}

/// Brings `x` within the range: `min(max(start, x), end)`.
pub fn clamp(range: &RangeInclusive<usize>, x: usize) -> (r: usize)
    ensures
        r == clamp_spec(range@.start as int, range@.end as int, x as int),
{
    let start = *range.start();
    let end = *range.end();
    let lower = if x < start { start } else { x };
    if lower > end { end } else { lower }
}

/// Exchanges the elements at `i` and `j`.
pub fn swap_elements<T>(v: &mut Vec<T>, i: usize, j: usize)
    requires
        i < old(v)@.len(),
        j < old(v)@.len(),
    ensures
        final(v)@ == old(v)@.update(i as int, old(v)@[j as int]).update(j as int, old(v)@[i as int]),
{
    if i == j {
        assert(v@ =~= v@.update(i as int, v@[j as int]).update(j as int, v@[i as int]));
        return;
    }
    let ghost v0 = v@;
    let (lo, hi) = if i < j { (i, j) } else { (j, i) };
    let x = v.remove(hi);
    let y = v.remove(lo);
    v.insert(lo, x);
    v.insert(hi, y);
    assert(v@ =~= v0.update(i as int, v0[j as int]).update(j as int, v0[i as int]));
}

/// Removes the elements at the indices `idcs.start .. idcs.end`.
pub fn remove_range<T>(v: &mut Vec<T>, start: usize, end: usize)
    requires
        start <= end <= old(v)@.len(),
    ensures
        final(v)@ == old(v)@.take(start as int) + old(v)@.skip(end as int),
{
    let ghost v0 = v@;
    let mut tail = v.split_off(end);
    v.truncate(start);
    v.append(&mut tail);
    assert(v@ =~= v0.take(start as int) + v0.skip(end as int));
}

} // verus!
