use super::crossover_insert_slice::replace_element;
use super::{random_usize_in, VecMutator};
use crate::mutations::RevertMutation;
use vstd::prelude::*;

verus! {

/// Mutates one element of a vector with the element mutator.
pub struct MutateElement;

/// A mutation of an element drawn at random.
#[derive(Debug, Clone, Copy, PartialEq, Eq)]
pub struct MutateElementRandomStep;

/// Mutations in order: `indices` are the elements whose mutations are not exhausted yet,
/// and `inner_steps[i]` is the state of the element mutator's search for the element at
/// `i`.
pub struct MutateElementStep<S> {
    pub indices: Vec<usize>,
    pub inner_steps: Vec<S>,
}

/// A mutation of the element at `el_idx`, or of the element at `indices[step_idx]` of the
/// step.
#[derive(Debug, Clone, Copy, PartialEq, Eq)]
pub enum ConcreteMutateElement {
    Random { el_idx: usize },
    Ordered { step_idx: usize },
}

/// Puts back the element that was at `idx`, when it was mutated (`unmutate_token` is the
/// old element).
pub struct RevertMutateElement<T> {
    pub idx: usize,
    pub unmutate_token: Option<T>,
}

impl<T> RevertMutation<Vec<T>> for RevertMutateElement<T> {
    open spec fn revert_requires(&self, value: Vec<T>) -> bool {
        self.unmutate_token is Some ==> self.idx < value@.len()
    }

    open spec fn revert_ensures(&self, before: Vec<T>, after: Vec<T>) -> bool {
        match self.unmutate_token {
            Some(el) => after@ == before@.update(self.idx as int, el),
            None => after@ == before@,
        }
    }

    fn revert(self, value: &mut Vec<T>) {
        let RevertMutateElement { idx, unmutate_token } = self;
        if let Some(el) = unmutate_token {
            let _ = replace_element(value, idx, el);
        }
    }
}

/// The step is about a vector of length `len`: each index it holds is one of the vector.
pub open spec fn mutate_step_wf<S>(step: MutateElementStep<S>, len: nat) -> bool {
    &&& step.inner_steps@.len() == len
    &&& forall|i: int| 0 <= i < step.indices@.len() ==> #[trigger] step.indices@[i] < len
}

/// The index of the element that a mutation is about.
pub open spec fn mutated_index<S>(mutation: ConcreteMutateElement, step: MutateElementStep<S>) -> int {
    match mutation {
        ConcreteMutateElement::Random { el_idx } => el_idx as int,
        ConcreteMutateElement::Ordered { step_idx } => step.indices@[step_idx as int] as int,
    }
}

impl MutateElement {
    /// A mutation at random, when the elements can vary and there is one.
    pub fn default_random_step<T>(&self, mutator: &VecMutator, value: &Vec<T>) -> (step: Option<MutateElementRandomStep>)
        ensures
            step is Some <==> !mutator.element_max_complexity_is_zero && value@.len() > 0,
    {
        if mutator.element_max_complexity_is_zero {
            return None;
        }
        if value.len() == 0 {
            None
        } else {
            Some(MutateElementRandomStep)
        }
    }

    /// A mutation of an element drawn at random.
    pub fn random<T>(mutator: &VecMutator, value: &Vec<T>) -> (mutation: ConcreteMutateElement)
        requires
            value@.len() > 0,
        ensures
            mutation matches ConcreteMutateElement::Random { el_idx } && el_idx < value@.len(),
    {
        ConcreteMutateElement::Random { el_idx: random_usize_in(&mutator.rng, 0, value.len() - 1) }
    }

    /// Mutations in order, when possible: of every element, each starting from
    /// `inner_steps`, the first step of the element mutator's search for it.
    pub fn default_step<T, S>(&self, mutator: &VecMutator, value: &Vec<T>, inner_steps: Vec<S>) -> (step: Option<MutateElementStep<S>>)
        requires
            inner_steps@.len() == value@.len(),
        ensures
            step is Some <==> !mutator.element_max_complexity_is_zero && value@.len() > 0,
            step matches Some(s) ==> {
                &&& s.indices@.len() == value@.len()
                &&& forall|i: int| 0 <= i < value@.len() ==> #[trigger] s.indices@[i] == i
                &&& s.inner_steps@ == inner_steps@
            },
    {
        if mutator.element_max_complexity_is_zero {
            return None;
        }
        if value.len() == 0 {
            None
        } else {
            let mut indices: Vec<usize> = Vec::new();
            let mut i: usize = 0;
            while i < value.len()
                invariant
                    i <= value@.len(),
                    indices@.len() == i,
                    forall|k: int| 0 <= k < i ==> #[trigger] indices@[k] == k,
                decreases value@.len() - i,
            {
                indices.push(i);
                i = i + 1;
            }
            Some(MutateElementStep { indices, inner_steps })
        }
    }

    /// The next mutation in order: of one of the elements whose mutations are not
    /// exhausted, drawn at random; none when all are.
    pub fn from_step<S>(mutator: &VecMutator, step: &MutateElementStep<S>) -> (mutation: Option<ConcreteMutateElement>)
        ensures
            mutation is None <==> step.indices@.len() == 0,
            mutation matches Some(m) ==> m matches ConcreteMutateElement::Ordered { step_idx }
                && step_idx < step.indices@.len(),
    {
        if step.indices.len() == 0 {
            None
        } else {
            let step_idx = random_usize_in(&mutator.rng, 0, step.indices.len() - 1);
            Some(ConcreteMutateElement::Ordered { step_idx })
        }
    }

    /// The index of the element that the mutation is about: the element mutator works on
    /// it before `apply`.
    pub fn element_index<S>(mutation: &ConcreteMutateElement, step: &MutateElementStep<S>) -> (idx: usize)
        requires
            *mutation matches ConcreteMutateElement::Ordered { step_idx } ==> step_idx < step.indices@.len(),
        ensures
            idx == mutated_index(*mutation, *step),
    {
        match mutation {
            ConcreteMutateElement::Random { el_idx } => *el_idx,
            ConcreteMutateElement::Ordered { step_idx } => step.indices[*step_idx],
        }
    }

    /// Applies what the element mutator made of the element: `Some(new_el)` takes its
    /// place, and the token puts the old element back; `None` says that its mutations are
    /// exhausted, which takes it out of the step's indices when the mutation was in order,
    /// and leaves the vector as it is.
    pub fn apply<T, S>(
        mutation: ConcreteMutateElement,
        value: &mut Vec<T>,
        step: &mut MutateElementStep<S>,
        outcome: Option<T>,
    ) -> (revert: RevertMutateElement<T>)
        requires
            mutation matches ConcreteMutateElement::Ordered { step_idx } ==> step_idx < old(step).indices@.len(),
            0 <= mutated_index(mutation, *old(step)) < old(value)@.len(),
        ensures
            ({
                let idx = mutated_index(mutation, *old(step));
                &&& revert.idx == idx
                &&& final(step).inner_steps@ == old(step).inner_steps@
                &&& match outcome {
                    Some(new_el) => {
                        &&& final(value)@ == old(value)@.update(idx, new_el)
                        &&& revert.unmutate_token == Some(old(value)@[idx])
                        &&& final(step).indices@ == old(step).indices@
                    },
                    None => {
                        &&& final(value)@ == old(value)@
                        &&& revert.unmutate_token is None
                        &&& final(step).indices@ == match mutation {
                            ConcreteMutateElement::Ordered { step_idx } => old(step).indices@.remove(step_idx as int),
                            ConcreteMutateElement::Random { .. } => old(step).indices@,
                        }
                    },
                }
            }),
    {
        let el_idx = Self::element_index(&mutation, step);
        match outcome {
            Some(new_el) => {
                let old_el = replace_element(value, el_idx, new_el);
                RevertMutateElement { idx: el_idx, unmutate_token: Some(old_el) }
            },
            None => {
                if let ConcreteMutateElement::Ordered { step_idx } = mutation {
                    let _ = step.indices.remove(step_idx);
                }
                RevertMutateElement { idx: el_idx, unmutate_token: None }
            },
        }
    }
}

/// A mutation in order keeps the step about the vector: the indices it holds stay indices
/// of the vector.
pub proof fn lemma_apply_keeps_step_wf<S>(before: MutateElementStep<S>, after: MutateElementStep<S>, step_idx: int, len: nat)
    requires
        mutate_step_wf(before, len),
        0 <= step_idx < before.indices@.len(),
        after.inner_steps@ == before.inner_steps@,
        after.indices@ == before.indices@ || after.indices@ == before.indices@.remove(step_idx),
    ensures
        mutate_step_wf(after, len),
{
    assert forall|i: int| 0 <= i < after.indices@.len() implies #[trigger] after.indices@[i] < len by {
        if after.indices@ != before.indices@ {
            if i < step_idx {
                assert(after.indices@[i] == before.indices@[i]);
            } else {
                assert(after.indices@[i] == before.indices@[i + 1]);
            }
        }
    }
}

/// Mutating an element and reverting with the token gives the vector that was there: a
/// new element is replaced by the old one, and no outcome leaves the vector unchanged.
pub proof fn lemma_mutate_element_then_revert<T>(v: Seq<T>, idx: int, outcome: Option<T>)
    requires
        0 <= idx < v.len(),
    ensures
        ({
            let applied = match outcome {
                Some(new_el) => v.update(idx, new_el),
                None => v,
            };
            let token: Option<T> = match outcome {
                Some(_) => Some(v[idx]),
                None => None,
            };
            let reverted = match token {
                Some(el) => applied.update(idx, el),
                None => applied,
            };
            reverted == v
        }),
{
    if let Some(new_el) = outcome {
        assert(v.update(idx, new_el).update(idx, v[idx]) =~= v);
    }
}

} // verus!
