use fuzzcheck_mutators::mutations::{NoMutation, RevertMutation};
use fuzzcheck_mutators::vector::arbitrary::Arbitrary;
use fuzzcheck_mutators::vector::copy_element::{CopyElement, CopyElementStep};
use fuzzcheck_mutators::vector::crossover_insert_slice::{
    copy_slice, replace_element, ConcreteCrossoverInsertSlice, CrossoverInsertSlice,
};
use fuzzcheck_mutators::vector::crossover_replace_element::{ConcreteCrossoverReplaceElement, CrossoverReplaceElement};
use fuzzcheck_mutators::vector::insert_element::InsertElement;
use fuzzcheck_mutators::vector::insert_many_elements::{insert_many, ConcreteInsertManyElements, InsertManyElements};
use fuzzcheck_mutators::vector::mutate_element::{ConcreteMutateElement, MutateElement};
use fuzzcheck_mutators::vector::only_choose_length::{OnlyChooseLength, OnlyChooseLengthStep};
use fuzzcheck_mutators::vector::remove::{ConcreteRemove, Remove, RemoveStep};
use fuzzcheck_mutators::vector::remove_and_insert_element::{insertion_index, RemoveAndInsertElement};
use fuzzcheck_mutators::vector::swap_elements::{SwapElements, SwapElementsStep};
use fuzzcheck_mutators::vector::vec_mutation::RevertVectorMutation;
use fuzzcheck_mutators::vector::{clamp, remove_range, swap_elements, VecArbitraryStep, VecMutator};

fn mutator(min: usize, max: usize) -> VecMutator {
    VecMutator::new(min..=max, false, false)
}

#[test]
fn remove_in_order_then_revert() {
    let m = mutator(0, 10);
    let original = vec![10, 20, 30];
    let mut step = Remove.default_step(&m, &original).unwrap();
    assert_eq!(step, RemoveStep { idx: 0 });
    let mut seen = vec![];
    while let Some(mutation) = Remove::from_step(&original, &mut step) {
        let mut value = original.clone();
        let token = Remove::apply(mutation, &mut value);
        seen.push(value.clone());
        token.revert(&mut value);
        assert_eq!(value, original);
    }
    assert_eq!(seen, vec![vec![20, 30], vec![10, 30], vec![10, 20]]);
    assert!(Remove.default_step(&mutator(3, 10), &original).is_none());
    assert!(Remove.default_random_step(&VecMutator::new(0..=10, true, false), &original).is_none());
    let s = Remove.default_random_step(&m, &original).unwrap();
    assert!(s.idx < 3);
    assert_eq!(Remove::random(&RemoveStep { idx: 2 }), ConcreteRemove { idx: 2 });
}

#[test]
fn swap_every_pair_once() {
    let m = mutator(0, 10);
    let original = vec!['a', 'b', 'c'];
    let mut step = SwapElements.default_step(&m, &original).unwrap();
    assert_eq!(step, SwapElementsStep { idx_1: 0, idx_2: 1 });
    let mut pairs = vec![];
    while let Some(mutation) = SwapElements::from_step(&original, &mut step) {
        pairs.push((mutation.idx_1, mutation.idx_2));
        let mut value = original.clone();
        let token = SwapElements::apply(mutation, &mut value);
        assert_ne!(value, original);
        token.revert(&mut value);
        assert_eq!(value, original);
    }
    assert_eq!(pairs, vec![(0, 1), (0, 2), (1, 2)]);
    let s = SwapElements::step_from_choices(1, 1);
    assert_eq!((s.idx_1, s.idx_2), (1, 2));
    let s = SwapElements::step_from_choices(2, 0);
    assert_eq!((s.idx_1, s.idx_2), (2, 0));
    let s = SwapElements.default_random_step(&m, &original).unwrap();
    assert_ne!(s.idx_1, s.idx_2);
}

#[test]
fn insert_element_then_revert() {
    let m = mutator(0, 4);
    let original = vec![1, 2, 3];
    assert!(InsertElement.default_random_step(&m, &original).is_some());
    assert!(InsertElement.default_random_step(&mutator(0, 3), &original).is_none());
    let step = InsertElement.default_step(&m, &original, 0u8).unwrap();
    assert_eq!(step.arbitrary_steps, vec![(0, 0), (1, 0), (2, 0), (3, 0)]);
    let mutation = InsertElement::random(&m, &original, 9);
    assert!(mutation.idx <= 3);
    let mut value = original.clone();
    let idx = mutation.idx;
    let token = InsertElement::apply(mutation, &mut value);
    assert_eq!(value.len(), 4);
    assert_eq!(value[idx], 9);
    token.revert(&mut value);
    assert_eq!(value, original);
}

#[test]
fn insert_many_then_revert() {
    let mut v = vec![1, 2, 3];
    insert_many(&mut v, 1, vec![7, 8]);
    assert_eq!(v, vec![1, 7, 8, 2, 3]);
    let m = mutator(0, 5);
    let op = InsertManyElements { nbr_added_elements: 2, repeated: false };
    let original = vec![1, 2, 3];
    assert!(op.default_step(&m, &original).is_some());
    assert!(op.default_random_step(&mutator(0, 4), &original).is_none());
    let candidate: ConcreteInsertManyElements<i32> = ConcreteInsertManyElements { els: vec![], idx: 0 };
    assert!(InsertManyElements::from_candidate(candidate).is_none());
    let mutation = InsertManyElements::from_candidate(ConcreteInsertManyElements { els: vec![5, 6], idx: 3 }).unwrap();
    let mut value = original.clone();
    let token = InsertManyElements::apply(mutation, &mut value);
    assert_eq!(value, vec![1, 2, 3, 5, 6]);
    assert_eq!(token.idcs, 3..5);
    token.revert(&mut value);
    assert_eq!(value, original);
}

#[test]
fn copy_element_in_order() {
    let m = mutator(0, 10);
    let original = vec!['x', 'y'];
    let mut step = CopyElement.default_step(&m, &original).unwrap();
    assert_eq!(step, CopyElementStep { from_idx: 0, to_idx: 0 });
    let fits = vec![true, true];
    let mut results = vec![];
    while let Some(mutation) = CopyElement::from_step(&original, &fits, &mut step) {
        let mut value = original.clone();
        let token = CopyElement::apply(mutation, &mut value);
        results.push(value.clone());
        token.revert(&mut value);
        assert_eq!(value, original);
    }
    assert_eq!(
        results,
        vec![vec!['x', 'x', 'y'], vec!['x', 'y', 'x'], vec!['y', 'x', 'y'], vec!['x', 'y', 'y']]
    );
}

#[test]
fn copy_element_skips_what_does_not_fit() {
    let original = vec![1, 2, 3];
    let fits = vec![false, true, false];
    let mut step = CopyElementStep { from_idx: 0, to_idx: 0 };
    let mut copies = vec![];
    while let Some(mutation) = CopyElement::from_step(&original, &fits, &mut step) {
        copies.push((mutation.el, mutation.idx));
    }
    assert_eq!(copies, vec![(2, 0), (2, 2), (2, 3)]);
    assert_eq!(step, CopyElementStep { from_idx: 3, to_idx: 0 });
    assert!(CopyElement.default_step(&mutator(0, 3), &original).is_none());
    let m = mutator(0, 10);
    let r = CopyElement::random(&m, &original);
    assert!(original.contains(&r.el));
    assert!(r.idx < 3);
}

#[test]
fn remove_and_insert_then_revert() {
    assert_eq!(insertion_index(0, 1), 0);
    assert_eq!(insertion_index(1, 1), 2);
    let m = mutator(0, 10);
    let original = vec![1, 2, 3, 4];
    assert!(RemoveAndInsertElement.default_random_step(&m, &vec![1]).is_none());
    assert!(RemoveAndInsertElement.default_step(&m, &original).is_some());
    for _ in 0..20 {
        let mutation = RemoveAndInsertElement::random(&m, &original, 9);
        assert_ne!(mutation.remove_idx, mutation.insert_idx);
        let mut value = original.clone();
        let token = RemoveAndInsertElement::apply(mutation, &mut value);
        assert_eq!(value.len(), 4);
        assert!(value.contains(&9));
        token.revert(&mut value);
        assert_eq!(value, original);
    }
}

#[test]
fn arbitrary_then_revert() {
    let m = mutator(0, 10);
    let original = vec![1, 2];
    assert!(Arbitrary.default_step(&m, &original).is_some());
    let mutation = Arbitrary::from_step(vec![7, 7, 7]).unwrap();
    let mut value = original.clone();
    let token = Arbitrary::apply(mutation, &mut value);
    assert_eq!(value, vec![7, 7, 7]);
    token.revert(&mut value);
    assert_eq!(value, original);
}

#[test]
fn only_choose_length() {
    let m = VecMutator::new(2..=4, true, true);
    let original = vec![(), ()];
    let mut step = OnlyChooseLength.default_step(&m, &original).unwrap();
    assert_eq!(step, OnlyChooseLengthStep { length: 2 });
    let mut lengths = vec![];
    while let Some(mutation) = OnlyChooseLength::from_step(&m, &mut step, true) {
        let mut value = original.clone();
        let token = OnlyChooseLength::apply(mutation, &mut value, ());
        lengths.push(value.len());
        token.revert(&mut value);
        assert_eq!(value, original);
    }
    assert_eq!(lengths, vec![2, 3, 4]);
    let mut step = OnlyChooseLengthStep { length: 2 };
    assert!(OnlyChooseLength::from_step(&m, &mut step, false).is_none());
    assert_eq!(step.length, 2);
    for _ in 0..20 {
        let l = OnlyChooseLength::random(&m, 3).length;
        assert!((2..=3).contains(&l));
    }
    assert!(OnlyChooseLength.default_step(&mutator(0, 3), &original).is_none());
}

#[test]
fn mutate_element_in_order() {
    let m = mutator(0, 10);
    let original = vec![5, 6, 7];
    let mut step = MutateElement.default_step(&m, &original, vec![0u8, 0, 0]).unwrap();
    assert_eq!(step.indices, vec![0, 1, 2]);
    let mutation = MutateElement::from_step(&m, &step).unwrap();
    let idx = MutateElement::element_index(&mutation, &step);
    let mut value = original.clone();
    let token = MutateElement::apply(mutation, &mut value, &mut step, Some(50));
    assert_eq!(value[idx], 50);
    token.revert(&mut value);
    assert_eq!(value, original);
    let token = MutateElement::apply(ConcreteMutateElement::Ordered { step_idx: 0 }, &mut value, &mut step, None);
    assert!(token.unmutate_token.is_none());
    assert_eq!(step.indices.len(), 2);
    assert_eq!(value, original);
    let r = MutateElement::random(&m, &original);
    assert!(matches!(r, ConcreteMutateElement::Random { el_idx } if el_idx < 3));
}

#[test]
fn crossover_replace_element_then_revert() {
    let m = VecMutator::new(0..=10, false, false);
    let original = vec![1, 2, 3];
    assert!(CrossoverReplaceElement.default_random_step(&m, &original).is_none());
    assert_eq!(CrossoverReplaceElement.default_step(&m, &original).unwrap().nbr_elements, 3);
    let idx = CrossoverReplaceElement::choose_index(&m, &original);
    assert!(idx < 3);
    let mutation = CrossoverReplaceElement::from_subvalue(1, Some(&40), true);
    assert!(matches!(mutation, ConcreteCrossoverReplaceElement::ReplaceElement { el: 40, idx: 1 }));
    let rejected: ConcreteCrossoverReplaceElement<i32> = CrossoverReplaceElement::from_subvalue(1, Some(&40), false);
    assert!(matches!(rejected, ConcreteCrossoverReplaceElement::Random(1)));
    let mut value = original.clone();
    let token = CrossoverReplaceElement::apply(mutation, &mut value, 0);
    assert_eq!(value, vec![1, 40, 3]);
    token.revert(&mut value);
    assert_eq!(value, original);
}

#[test]
fn crossover_insert_slice() {
    let m = mutator(0, 5);
    let original = vec![1, 2, 3];
    assert!(CrossoverInsertSlice.default_random_step(&m, &original).is_none());
    assert!(CrossoverInsertSlice.default_step(&m, &original).is_some());
    assert!(CrossoverInsertSlice.default_step(&mutator(0, 3), &original).is_none());
    let slice = vec![10, 11, 12, 13];
    let cplx = vec![Some(1), None, Some(2), Some(1)];
    let mutation = CrossoverInsertSlice::from_choices(&m, &original, Some(&slice), &cplx, 10, 0, 1, 0);
    match &mutation {
        ConcreteCrossoverInsertSlice::InsertSlice { idx, slice } => {
            assert_eq!(*idx, 1);
            assert_eq!(slice, &vec![10, 12]);
        }
        _ => panic!("expected an insertion"),
    }
    let mut value = original.clone();
    let token = CrossoverInsertSlice::apply(mutation, &mut value, 0);
    assert_eq!(value, vec![1, 10, 12, 2, 3]);
    token.revert(&mut value);
    assert_eq!(value, original);
    let empty: Vec<i32> = vec![];
    let mutation = CrossoverInsertSlice::from_choices(&m, &original, Some(&empty), &vec![], 10, 2, 0, 0);
    assert!(matches!(mutation, ConcreteCrossoverInsertSlice::Random(2)));
    let mut value = original.clone();
    let token = CrossoverInsertSlice::apply(mutation, &mut value, 30);
    assert_eq!(value, vec![1, 2, 30]);
    token.revert(&mut value);
    assert_eq!(value, original);
    let m2 = mutator(0, 10);
    assert!(CrossoverInsertSlice::from_step(&m2, &original, None, &vec![], 10).is_some());
}

#[test]
fn copy_slice_stops_at_the_complexity_or_the_length() {
    let slice = vec!['a', 'b', 'c', 'd'];
    let cplx = vec![Some(3), Some(3), Some(1), Some(1)];
    let (copied, added) = copy_slice(&slice, &cplx, 0, 10, 5);
    assert_eq!(copied, vec!['a', 'c']);
    assert_eq!(added, 4);
    let (copied, added) = copy_slice(&slice, &cplx, 1, 1, 100);
    assert_eq!(copied, vec!['b']);
    assert_eq!(added, 3);
}

#[test]
fn vector_helpers() {
    let mut v = vec![1, 2, 3, 4];
    swap_elements(&mut v, 0, 3);
    assert_eq!(v, vec![4, 2, 3, 1]);
    remove_range(&mut v, 1, 3);
    assert_eq!(v, vec![4, 1]);
    assert_eq!(replace_element(&mut v, 1, 9), 1);
    assert_eq!(v, vec![4, 9]);
    assert_eq!(clamp(&(2..=5), 0), 2);
    assert_eq!(clamp(&(2..=5), 7), 5);
    assert_eq!(clamp(&(2..=5), 3), 3);
    let m = VecMutator::new(3..=8, true, true);
    assert_eq!((m.len_start(), m.len_end()), (3, 8));
    assert!(matches!(m.default_arbitrary_step(), VecArbitraryStep::InnerMutatorIsUnit { length_step: 3 }));
    let m = VecMutator::new_without_inherent_complexity(0..=8, false, false);
    assert!(!m.inherent_complexity);
    assert!(matches!(m.default_arbitrary_step(), VecArbitraryStep::Normal { make_empty: false }));
}

#[test]
fn reverting_any_vector_mutation() {
    let original = vec![1, 2, 3];
    let mut value = original.clone();
    let token = Remove::apply(ConcreteRemove { idx: 1 }, &mut value);
    RevertVectorMutation::Remove(token).revert(&mut value);
    assert_eq!(value, original);
    RevertVectorMutation::<i32>::NoMutation(NoMutation).revert(&mut value);
    assert_eq!(value, original);
}

#[test]
fn insert_element_in_order_drops_exhausted_indices() {
    let m = mutator(0, 10);
    let original = vec!['a', 'b'];
    let mut step = InsertElement.default_step(&m, &original, 0u32).unwrap();
    let choice = InsertElement::choose_step(&m, &step).unwrap();
    assert!(choice < 3);
    let idx = step.arbitrary_steps[choice].0;
    let mutation = InsertElement::from_outcome(&mut step, choice, Some('z')).unwrap();
    assert_eq!((mutation.el, mutation.idx), ('z', idx));
    assert_eq!(step.arbitrary_steps.len(), 3);
    let none: Option<char> = None;
    assert!(InsertElement::from_outcome(&mut step, 0, none).is_none());
    assert_eq!(step.arbitrary_steps, vec![(1, 0), (2, 0)]);
    let none: Option<char> = None;
    assert!(InsertElement::from_outcome(&mut step, 1, none).is_none());
    let none: Option<char> = None;
    assert!(InsertElement::from_outcome(&mut step, 0, none).is_none());
    assert!(InsertElement::choose_step(&m, &step).is_none());
}
