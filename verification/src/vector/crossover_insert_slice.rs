use super::insert_many_elements::insert_many;
use super::{random_usize_in, remove_range, VecMutator};
use crate::mutations::RevertMutation;
use std::ops::Range;
use vstd::prelude::*;

verus! {

/// Inserts in a vector a part of another vector, taken from the values seen before; when
/// there is none, mutates one element instead.
pub struct CrossoverInsertSlice;

/// Crossovers in order.
#[derive(Debug, Clone, Copy, PartialEq, Eq)]
pub struct CrossoverInsertSliceStep;

/// Either mutates the element at an index, or inserts `slice` at `idx`.
pub enum ConcreteCrossoverInsertSlice<T> {
    Random(usize),
    InsertSlice { idx: usize, slice: Vec<T> },
}

/// Either puts back an element at an index, or removes the elements at the indices
/// `idxs`.
pub enum RevertCrossoverInsertSlice<T> {
    Random(T, usize),
    InsertSlice { idxs: Range<usize> },
}

impl<T> RevertMutation<Vec<T>> for RevertCrossoverInsertSlice<T> {
    open spec fn revert_requires(&self, value: Vec<T>) -> bool {
        match self {
            RevertCrossoverInsertSlice::Random(_, idx) => *idx < value@.len(),
            RevertCrossoverInsertSlice::InsertSlice { idxs } => idxs.start <= idxs.end <= value@.len(),
        }
    }

    open spec fn revert_ensures(&self, before: Vec<T>, after: Vec<T>) -> bool {
        match self {
            RevertCrossoverInsertSlice::Random(el, idx) => after@ == before@.update(*idx as int, *el),
            RevertCrossoverInsertSlice::InsertSlice { idxs } => after@ == before@.take(idxs.start as int)
                + before@.skip(idxs.end as int),
        }
    }

    fn revert(self, value: &mut Vec<T>) {
        match self {
            RevertCrossoverInsertSlice::Random(el, idx) => {
                let _ = replace_element(value, idx, el);
            },
            RevertCrossoverInsertSlice::InsertSlice { idxs } => {
                remove_range(value, idxs.start, idxs.end);
            },
        }
    }
}

/// Puts `el` at `idx` and gives back the element that was there.
pub fn replace_element<T>(v: &mut Vec<T>, idx: usize, el: T) -> (old_el: T)
    requires
        idx < old(v)@.len(),
    ensures
        final(v)@ == old(v)@.update(idx as int, el),
        old_el == old(v)@[idx as int],
{
    let ghost v0 = v@;
    let old_el = v.remove(idx);
    v.insert(idx, el);
    assert(v@ =~= v0.update(idx as int, el));
    old_el
}

/// The indices of the elements of a slice that are copied, from `i` on: an element is
/// copied when it is valid for the element mutator (`cplx[i]` is its complexity, `None`
/// for an invalid one) and the complexity `added` of the elements copied so far plus its
/// own stays under `spare`; the copy stops after `max_len` elements.
pub open spec fn copied_indices(cplx: Seq<Option<u64>>, i: nat, copied: nat, max_len: nat, added: nat, spare: nat) -> Seq<nat>
    decreases cplx.len() - i,
{
    if i >= cplx.len() || copied >= max_len {
        seq![]
    } else {
        match cplx[i as int] {
            Some(c) if added + c < spare => seq![i] + copied_indices(cplx, i + 1, copied + 1, max_len, added + c as nat, spare),
            _ => copied_indices(cplx, i + 1, copied, max_len, added, spare),
        }
    }
}

/// The sum of the complexities `cplx` at the indices `idcs`.
pub open spec fn added_complexity(cplx: Seq<Option<u64>>, idcs: Seq<nat>) -> nat
    decreases idcs.len(),
{
    if idcs.len() == 0 {
        0
    } else {
        let c: nat = match cplx[idcs[0] as int] {
            Some(c) => c as nat,
            None => 0,
        };
        c + added_complexity(cplx, idcs.drop_first())
    }
}

proof fn lemma_copied_indices_bounds(cplx: Seq<Option<u64>>, i: nat, copied: nat, max_len: nat, added: nat, spare: nat)
    requires
        added <= spare,
    ensures
        ({
            let r = copied_indices(cplx, i, copied, max_len, added, spare);
            &&& copied + r.len() <= if copied <= max_len { max_len } else { copied }
            &&& added + added_complexity(cplx, r) <= spare
            &&& forall|k: int| 0 <= k < r.len() ==> i <= #[trigger] r[k] < cplx.len()
        }),
    decreases cplx.len() - i,
{
    if i >= cplx.len() || copied >= max_len {
    } else {
        match cplx[i as int] {
            Some(c) if added + c < spare => {
                lemma_copied_indices_bounds(cplx, i + 1, copied + 1, max_len, added + c as nat, spare);
                let r = copied_indices(cplx, i, copied, max_len, added, spare);
                assert(r.drop_first() =~= copied_indices(cplx, i + 1, copied + 1, max_len, added + c as nat, spare));
            },
            _ => {
                lemma_copied_indices_bounds(cplx, i + 1, copied, max_len, added, spare);
            },
        }
    }
}

/// Copies the elements of `slice` from `start` on, as `copied_indices` says, and gives
/// them with their total complexity.
pub fn copy_slice<T: Clone>(slice: &Vec<T>, cplx: &Vec<Option<u64>>, start: usize, max_len: usize, spare: u64) -> (r: (Vec<T>, u64))
    requires
        cplx@.len() == slice@.len(),
    ensures
        ({
            let idcs = copied_indices(cplx@, start as nat, 0, max_len as nat, 0, spare as nat);
            &&& r.0@.len() == idcs.len()
            &&& forall|k: int| 0 <= k < idcs.len() ==> cloned(slice@[#[trigger] idcs[k] as int], r.0@[k])
            &&& r.1 == added_complexity(cplx@, idcs)
        }),
{
    let mut out: Vec<T> = Vec::new();
    let mut added: u64 = 0;
    let mut copied: usize = 0;
    let mut i: usize = start;
    let ghost full = copied_indices(cplx@, start as nat, 0, max_len as nat, 0, spare as nat);
    let ghost mut done: Seq<nat> = seq![];
    proof {
        lemma_copied_indices_bounds(cplx@, start as nat, 0, max_len as nat, 0, spare as nat);
    }
    while i < slice.len() && copied < max_len
        invariant
            cplx@.len() == slice@.len(),
            added <= spare,
            copied == done.len(),
            copied <= max_len,
            out@.len() == done.len(),
            full == done + copied_indices(cplx@, i as nat, copied as nat, max_len as nat, added as nat, spare as nat),
            added == added_complexity(cplx@, done),
            forall|k: int| 0 <= k < done.len() ==> cloned(slice@[#[trigger] done[k] as int], out@[k]),
        decreases slice@.len() - i,
    {
        let ghost rest = copied_indices(cplx@, i as nat, copied as nat, max_len as nat, added as nat, spare as nat);
        match cplx[i] {
            Some(c) => {
                if c < spare - added {
                    let el = slice[i].clone();
                    out.push(el);
                    proof {
                        assert(rest == seq![i as nat] + copied_indices(cplx@, i as nat + 1, copied as nat + 1, max_len as nat, (added + c) as nat, spare as nat));
                        lemma_added_complexity_push(cplx@, done, i as nat);
                        done = done.push(i as nat);
                        assert(full == done + copied_indices(cplx@, i as nat + 1, copied as nat + 1, max_len as nat, (added + c) as nat, spare as nat));
                    }
                    added = added + c;
                    copied = copied + 1;
                }
            },
            None => {},
        }
        i = i + 1;
    }
    assert(full == done);
    (out, added)
}

proof fn lemma_added_complexity_push(cplx: Seq<Option<u64>>, idcs: Seq<nat>, i: nat)
    requires
        i < cplx.len(),
        cplx[i as int] is Some,
    ensures
        added_complexity(cplx, idcs.push(i)) == added_complexity(cplx, idcs) + cplx[i as int]->0,
    decreases idcs.len(),
{
    if idcs.len() == 0 {
        assert(idcs.push(i).drop_first() =~= idcs);
        assert(idcs.push(i)[0] == i);
    } else {
        assert(idcs.push(i).drop_first() =~= idcs.drop_first().push(i));
        assert(idcs.push(i)[0] == idcs[0]);
        lemma_added_complexity_push(cplx, idcs.drop_first(), i);
    }
}

/// A crossover can be tried when the elements have choices, the vector is not empty and
/// it is shorter than the greatest length.
pub open spec fn can_cross_insert(m: &VecMutator, len: nat) -> bool {
    !m.element_search_space_is_zero && len != m.max_len() && len > 0
}

impl CrossoverInsertSlice {
    /// There is no crossover at random.
    pub fn default_random_step<T>(&self, mutator: &VecMutator, value: &Vec<T>) -> (step: Option<CrossoverInsertSliceStep>)
        ensures
            step is None,
    {
        None
    }

    /// Crossovers in order, when possible.
    pub fn default_step<T>(&self, mutator: &VecMutator, value: &Vec<T>) -> (step: Option<CrossoverInsertSliceStep>)
        ensures
            step is Some <==> can_cross_insert(mutator, value@.len()),
    {
        if mutator.element_search_space_is_zero || mutator.len_end() == value.len() {
            return None;
        }
        if value.len() == 0 {
            None
        } else {
            Some(CrossoverInsertSliceStep)
        }
    }

    /// The crossover for the given choices: `subvalue` is the vector that the values seen
    /// before offer, if any, and `cplx` the complexity of each of its elements (`None` for
    /// one that the element mutator does not accept); `spare` is the complexity that the
    /// value can still take. Without a non-empty `subvalue`, the element at `choice` is
    /// mutated; otherwise at most `max_len - value.len()` of its elements from
    /// `start_copied`, as `copied_indices` says, are inserted at `insertion_idx`.
    pub fn from_choices<T: Clone>(
        mutator: &VecMutator,
        value: &Vec<T>,
        subvalue: Option<&Vec<T>>,
        cplx: &Vec<Option<u64>>,
        spare: u64,
        choice: usize,
        insertion_idx: usize,
        start_copied: usize,
    ) -> (mutation: ConcreteCrossoverInsertSlice<T>)
        requires
            value@.len() < mutator.max_len(),
            subvalue matches Some(s) ==> cplx@.len() == s@.len(),
        ensures
            match subvalue {
                Some(s) if s@.len() > 0 => {
                    let max_added = if s@.len() < mutator.max_len() - value@.len() {
                        s@.len()
                    } else {
                        (mutator.max_len() - value@.len()) as nat
                    };
                    let idcs = copied_indices(cplx@, start_copied as nat, 0, max_added, 0, spare as nat);
                    &&& mutation matches ConcreteCrossoverInsertSlice::InsertSlice { idx, slice }
                    &&& idx == insertion_idx
                    &&& slice@.len() == idcs.len()
                    &&& forall|k: int| 0 <= k < idcs.len() ==> cloned(s@[#[trigger] idcs[k] as int], slice@[k])
                },
                _ => mutation == ConcreteCrossoverInsertSlice::<T>::Random(choice),
            },
    {
        match subvalue {
            Some(slice) => {
                if slice.len() == 0 {
                    ConcreteCrossoverInsertSlice::Random(choice)
                } else {
                    let room = mutator.len_end() - value.len();
                    let max_added_len = if slice.len() < room { slice.len() } else { room };
                    let (copied, _added) = copy_slice(slice, cplx, start_copied, max_added_len, spare);
                    ConcreteCrossoverInsertSlice::InsertSlice { idx: insertion_idx, slice: copied }
                }
            },
            None => ConcreteCrossoverInsertSlice::Random(choice),
        }
    }

    /// The next crossover: the index of the element to mutate, the index of insertion and
    /// the start of the copied part are drawn at random, then `from_choices` decides.
    pub fn from_step<T: Clone>(
        mutator: &VecMutator,
        value: &Vec<T>,
        subvalue: Option<&Vec<T>>,
        cplx: &Vec<Option<u64>>,
        spare: u64,
    ) -> (mutation: Option<ConcreteCrossoverInsertSlice<T>>)
        requires
            0 < value@.len() < mutator.max_len(),
            subvalue matches Some(s) ==> cplx@.len() == s@.len(),
        ensures
            mutation matches Some(m) && match m {
                ConcreteCrossoverInsertSlice::Random(idx) => idx < value@.len(),
                ConcreteCrossoverInsertSlice::InsertSlice { idx, slice } => idx <= value@.len()
                    && value@.len() + slice@.len() <= mutator.max_len(),
            },
            mutation matches Some(ConcreteCrossoverInsertSlice::Random(_)) <==> !(subvalue matches Some(s) && s@.len() > 0),
    {
        let choice = random_usize_in(&mutator.rng, 0, value.len() - 1);
        let (insertion_idx, start_copied) = match subvalue {
            Some(s) if s.len() > 0 => (
                random_usize_in(&mutator.rng, 0, value.len()),
                random_usize_in(&mutator.rng, 0, s.len() - 1),
            ),
            _ => (0, 0),
        };
        let m = Self::from_choices(mutator, value, subvalue, cplx, spare, choice, insertion_idx, start_copied);
        proof {
            if let Some(s) = subvalue {
                if s@.len() > 0 {
                    let max_added = if s@.len() < mutator.max_len() - value@.len() {
                        s@.len()
                    } else {
                        (mutator.max_len() - value@.len()) as nat
                    };
                    lemma_copied_indices_bounds(cplx@, start_copied as nat, 0, max_added, 0, spare as nat);
                }
            }
        }
        Some(m)
    }

    /// Applies the crossover and gives the token that undoes it. For a mutation of an
    /// element, `new_el` is what the element mutator made of the element at the index.
    pub fn apply<T>(mutation: ConcreteCrossoverInsertSlice<T>, value: &mut Vec<T>, new_el: T) -> (revert: RevertCrossoverInsertSlice<T>)
        requires
            match mutation {
                ConcreteCrossoverInsertSlice::Random(idx) => idx < old(value)@.len(),
                ConcreteCrossoverInsertSlice::InsertSlice { idx, slice } => idx <= old(value)@.len()
                    && old(value)@.len() + slice@.len() <= usize::MAX,
            },
        ensures
            match mutation {
                ConcreteCrossoverInsertSlice::Random(idx) => {
                    &&& final(value)@ == old(value)@.update(idx as int, new_el)
                    &&& revert == RevertCrossoverInsertSlice::Random(old(value)@[idx as int], idx)
                },
                ConcreteCrossoverInsertSlice::InsertSlice { idx, slice } => {
                    &&& final(value)@ == old(value)@.take(idx as int) + slice@ + old(value)@.skip(idx as int)
                    &&& revert matches RevertCrossoverInsertSlice::InsertSlice { idxs }
                    &&& idxs.start == idx
                    &&& idxs.end == idx + slice@.len()
                },
            },
    {
        match mutation {
            ConcreteCrossoverInsertSlice::Random(idx) => {
                let old_el = replace_element(value, idx, new_el);
                RevertCrossoverInsertSlice::Random(old_el, idx)
            },
            ConcreteCrossoverInsertSlice::InsertSlice { idx, slice } => {
                let idxs = idx..idx + slice.len();
                insert_many(value, idx, slice);
                RevertCrossoverInsertSlice::InsertSlice { idxs }
            },
        }
    }
}

/// Replacing an element and putting the old one back gives the vector that was there.
pub proof fn lemma_replace_then_revert<T>(v: Seq<T>, idx: int, el: T)
    requires
        0 <= idx < v.len(),
    ensures
        v.update(idx, el).update(idx, v[idx]) == v,
{
    assert(v.update(idx, el).update(idx, v[idx]) =~= v);
}

} // verus!
