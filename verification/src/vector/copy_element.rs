use super::{random_usize_in, VecMutator};
use crate::mutations::RevertMutation;
use vstd::prelude::*;

verus! {

/// Inserts a copy of one element of a vector.
pub struct CopyElement;

/// A copy at random.
#[derive(Debug, Clone, Copy, PartialEq, Eq)]
pub struct CopyElementRandomStep;

/// The next copy to try in order: of the element at `from_idx`, to `to_idx`.
#[derive(Debug, Clone, Copy, PartialEq, Eq)]
pub struct CopyElementStep {
    pub from_idx: usize,
    pub to_idx: usize,
}

/// Inserts `el` at `idx`.
pub struct ConcreteCopyElement<T> {
    pub el: T,
    pub idx: usize,
}

/// Removes the element at `idx`.
#[derive(Debug, Clone, Copy, PartialEq, Eq)]
pub struct RevertCopyElement {
    pub idx: usize,
}

impl<T> RevertMutation<Vec<T>> for RevertCopyElement {
    open spec fn revert_requires(&self, value: Vec<T>) -> bool {
        self.idx < value@.len()
    }

    open spec fn revert_ensures(&self, before: Vec<T>, after: Vec<T>) -> bool {
        after@ == before@.remove(self.idx as int)
    }

    fn revert(self, value: &mut Vec<T>) {
        let _ = value.remove(self.idx);
    }
}

/// An element can be copied when the elements can vary, there is one, and the vector is
/// shorter than the greatest length.
pub open spec fn can_copy(m: &VecMutator, len: nat) -> bool {
    !m.element_max_complexity_is_zero && len > 0 && len < m.max_len()
}

/// The search for the next copy, from the state `(from, to)`, in a vector of length
/// `len` where `fits[i]` says whether the element at `i` can be copied without exceeding
/// the greatest complexity. It gives the copy found, as the index copied and the index of
/// insertion, and the state that follows.
///
/// Each element is copied to every index but its own (inserting an element next to
/// itself gives the same vector either way); an element that does not fit is skipped.
pub open spec fn copy_search(len: nat, fits: Seq<bool>, from: nat, to: nat) -> (Option<(nat, nat)>, nat, nat)
    decreases len - from,
{
    if from >= len {
        (None, from, to)
    } else {
        let to1: nat = if from == to { to + 1 } else { to };
        if !fits[from as int] {
            copy_search(len, fits, from + 1, 0)
        } else {
            let next_to: nat = ((to1 + 1) % (len + 1)) as nat;
            (Some((from, to1)), if next_to == 0 { from + 1 } else { from }, next_to)
        }
    }
}

/// A copy that the search finds takes an element of the vector to an index of insertion
/// other than its own, and the state that follows is again one of the vector.
pub proof fn lemma_copy_search_not_in_place(len: nat, fits: Seq<bool>, from: nat, to: nat)
    requires
        to <= len,
    ensures
        ({
            let r = copy_search(len, fits, from, to);
            &&& r.0 matches Some(p) ==> p.0 < len && p.1 <= len && p.1 != p.0
            &&& r.2 <= len
        }),
    decreases len - from,
{
    if from < len {
        lemma_copy_search_not_in_place(len, fits, from + 1, 0);
    }
}

proof fn lemma_next_insertion_index(t: nat, len: nat)
    requires
        t <= len,
    ensures
        ((t + 1) % (len + 1)) as nat == if t == len { 0 } else { t + 1 },
{
    if t == len {
        assert((len + 1) % (len + 1) == 0) by (nonlinear_arith);
    } else {
        assert((t + 1) % (len + 1) == t + 1) by (nonlinear_arith)
            requires
                t + 1 < len + 1,
        ;
    }
}

/// The search moves forward: the state after a copy comes after the state before it, in
/// the order of the element copied, then of the index of insertion.
pub proof fn lemma_copy_search_advances(len: nat, fits: Seq<bool>, from: nat, to: nat)
    requires
        to <= len,
    ensures
        ({
            let r = copy_search(len, fits, from, to);
            r.0 is Some ==> r.1 <= len && r.2 <= len && (r.1 > from || (r.1 == from && r.2 > to))
        }),
    decreases len - from,
{
    if from < len {
        lemma_copy_search_advances(len, fits, from + 1, 0);
        let to1: nat = if from == to { to + 1 } else { to };
        if fits[from as int] {
            lemma_next_insertion_index(to1, len);
        }
    }
}

/// The copies that repeated searches give from the state `(from, to)`, one after the
/// other, as pairs of the index copied and the index of insertion, until the search gives
/// none.
pub open spec fn copy_run(len: nat, fits: Seq<bool>, from: nat, to: nat) -> Seq<(nat, nat)>
    decreases len + 1 - from, len + 1 - to,
{
    if from > len || to > len {
        seq![]
    } else {
        let r = copy_search(len, fits, from, to);
        proof {
            lemma_copy_search_advances(len, fits, from, to);
        }
        match r.0 {
            Some(p) => seq![p] + copy_run(len, fits, r.1, r.2),
            None => seq![],
        }
    }
}

/// Every copy, in order, from the state `(from, to)`: each element that fits, from the
/// first, to each index of insertion other than its own, from the first.
pub open spec fn all_copies(len: nat, fits: Seq<bool>, from: nat, to: nat) -> Seq<(nat, nat)>
    decreases len + 1 - from, len + 2 - to,
{
    if from >= len {
        seq![]
    } else if to > len || !fits[from as int] {
        all_copies(len, fits, from + 1, 0)
    } else if to == from {
        all_copies(len, fits, from, to + 1)
    } else {
        seq![(from, to)] + all_copies(len, fits, from, to + 1)
    }
}

/// Searching in order from the first element and the first index tries every copy once:
/// each element that fits, to every index of insertion but its own.
pub proof fn lemma_copies_in_order_are_all_copies(len: nat, fits: Seq<bool>, from: nat, to: nat)
    requires
        fits.len() == len,
        from <= len,
        to <= len,
    ensures
        copy_run(len, fits, from, to) == all_copies(len, fits, from, to),
    decreases len + 1 - from, len + 1 - to,
{
    if from < len {
        let r = copy_search(len, fits, from, to);
        lemma_copy_search_advances(len, fits, from, to);
        if !fits[from as int] {
            lemma_copies_in_order_are_all_copies(len, fits, from + 1, 0);
            assert(all_copies(len, fits, from, to) == all_copies(len, fits, from + 1, 0));
        } else {
            let t1: nat = if from == to { to + 1 } else { to };
            lemma_next_insertion_index(t1, len);
            lemma_copies_in_order_are_all_copies(len, fits, r.1, r.2);
            if from == to {
                assert(all_copies(len, fits, from, to) == all_copies(len, fits, from, to + 1));
            }
            assert(all_copies(len, fits, from, t1) == seq![(from, t1)] + all_copies(len, fits, from, t1 + 1));
            if t1 == len {
                assert(all_copies(len, fits, from, t1 + 1) == all_copies(len, fits, from + 1, 0));
            }
        }
    }
}

impl CopyElement {
    /// A copy at random, when possible.
    pub fn default_random_step<T>(&self, mutator: &VecMutator, value: &Vec<T>) -> (step: Option<CopyElementRandomStep>)
        ensures
            step is Some <==> can_copy(mutator, value@.len()),
    {
        if mutator.element_max_complexity_is_zero {
            return None;
        }
        if value.len() == 0 || value.len() >= mutator.len_end() {
            None
        } else {
            Some(CopyElementRandomStep)
        }
    }

    /// A copy of an element drawn at random, inserted at an index drawn at random.
    pub fn random<T: Clone>(mutator: &VecMutator, value: &Vec<T>) -> (mutation: ConcreteCopyElement<T>)
        requires
            value@.len() > 0,
        ensures
            exists|from: int| 0 <= from < value@.len() && cloned(value@[from], mutation.el),
            mutation.idx < value@.len(),
    {
        let from_idx = random_usize_in(&mutator.rng, 0, value.len() - 1);
        let to_idx = random_usize_in(&mutator.rng, 0, value.len() - 1);
        let el = value[from_idx].clone();
        ConcreteCopyElement { el, idx: to_idx }
    }

    /// Copies in order, from the first element to the first index, when possible.
    pub fn default_step<T>(&self, mutator: &VecMutator, value: &Vec<T>) -> (step: Option<CopyElementStep>)
        ensures
            step == (if can_copy(mutator, value@.len()) { Some(CopyElementStep { from_idx: 0, to_idx: 0 }) } else { None }),
    {
        if mutator.element_max_complexity_is_zero {
            return None;
        }
        if value.len() == 0 || value.len() >= mutator.len_end() {
            None
        } else {
            Some(CopyElementStep { from_idx: 0, to_idx: 0 })
        }
    }

    /// The next copy in order, as `copy_search` says; `fits[i]` says whether the element
    /// at `i` can be copied without exceeding the greatest complexity.
    pub fn from_step<T: Clone>(value: &Vec<T>, fits: &Vec<bool>, step: &mut CopyElementStep) -> (mutation: Option<ConcreteCopyElement<T>>)
        requires
            fits@.len() == value@.len(),
            value@.len() < usize::MAX,
            old(step).from_idx <= value@.len(),
            old(step).to_idx <= value@.len(),
        ensures
            ({
                let r = copy_search(value@.len(), fits@, old(step).from_idx as nat, old(step).to_idx as nat);
                &&& mutation is Some <==> r.0 is Some
                &&& r.0 matches Some(p) ==> (mutation matches Some(m) && m.idx == p.1 && cloned(value@[p.0 as int], m.el))
                &&& r.0 matches Some(p) ==> p.0 < value@.len() && p.1 <= value@.len() && p.1 != p.0
                &&& final(step).from_idx == r.1
                &&& final(step).to_idx == r.2
            }),
    {
        let ghost goal = copy_search(value@.len(), fits@, step.from_idx as nat, step.to_idx as nat);
        proof {
            lemma_copy_search_not_in_place(value@.len(), fits@, step.from_idx as nat, step.to_idx as nat);
        }
        let len = value.len();
        loop
            invariant
                fits@.len() == len,
                len == value@.len(),
                len < usize::MAX,
                step.from_idx <= len,
                step.to_idx <= len,
                copy_search(len as nat, fits@, step.from_idx as nat, step.to_idx as nat) == goal,
                goal == copy_search(value@.len(), fits@, old(step).from_idx as nat, old(step).to_idx as nat),
            decreases len - step.from_idx,
        {
            if step.from_idx == len {
                return None;
            }
            if step.from_idx == step.to_idx {
                step.to_idx = step.to_idx + 1;
            }
            if !fits[step.from_idx] {
                step.from_idx = step.from_idx + 1;
                step.to_idx = 0;
            } else {
                let el = value[step.from_idx].clone();
                let concrete = ConcreteCopyElement { el, idx: step.to_idx };
                step.to_idx = (step.to_idx + 1) % (len + 1);
                if step.to_idx == 0 {
                    step.from_idx = step.from_idx + 1;
                }
                return Some(concrete);
            }
        }
    }

    /// Inserts the copy and gives the token that removes it.
    pub fn apply<T>(mutation: ConcreteCopyElement<T>, value: &mut Vec<T>) -> (revert: RevertCopyElement)
        requires
            mutation.idx <= old(value)@.len(),
        ensures
            final(value)@ == old(value)@.insert(mutation.idx as int, mutation.el),
            revert.idx == mutation.idx,
    {
        let idx = mutation.idx;
        value.insert(idx, mutation.el);
        RevertCopyElement { idx }
    }
}

} // verus!
