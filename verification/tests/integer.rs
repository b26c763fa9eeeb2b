use fuzzcheck_mutators::bounds::Bound;
use fuzzcheck_mutators::integer::{
    binary_search_arbitrary_u16, binary_search_arbitrary_u32, binary_search_arbitrary_u64, binary_search_arbitrary_u8,
    size_to_cplxity,
};
use fuzzcheck_mutators::integer_within_range::{I64WithinRangeMutator, I8WithinRangeMutator, U32WithinRangeMutator, U8WithinRangeMutator};
use std::collections::HashSet;
use std::ops::RangeInclusive;

#[test]
fn test_int_constrained() {
    let m = U8WithinRangeMutator::new(Bound::Included(1), Bound::Excluded(2));
    assert!(m.is_valid(&1));
    assert!(!m.is_valid(&2));
}

fn test_arbitrary_for_int_range_mutator(start: Bound<i8>, end: Bound<i8>, range: RangeInclusive<i8>) {
    let m = I8WithinRangeMutator::new(start, end);
    for _ in 0..1000 {
        let x = m.random_arbitrary().0;
        assert!(range.contains(&x), "{}", x);
    }
    let mut step = 0;
    let mut all_generated = HashSet::new();
    while let Some((x, _)) = m.ordered_arbitrary(&mut step, 100) {
        let is_new = all_generated.insert(x);
        assert!(is_new);
    }
    for x in range {
        assert!(all_generated.contains(&x));
    }
}

#[test]
fn test_arbitrary_constrained_signed_integer_8() {
    test_arbitrary_for_int_range_mutator(Bound::Included(-128), Bound::Excluded(12), -128..=11);
    test_arbitrary_for_int_range_mutator(Bound::Included(5), Bound::Excluded(10), 5..=9);
    test_arbitrary_for_int_range_mutator(Bound::Included(0), Bound::Included(0), 0..=0);
    test_arbitrary_for_int_range_mutator(Bound::Included(-128), Bound::Included(127), -128..=127);
    test_arbitrary_for_int_range_mutator(Bound::Included(-100), Bound::Excluded(50), -100..=49);
}

#[allow(clippy::float_cmp)]
#[test]
fn test_size_to_cplxity() {
    assert_eq!(0.0, size_to_cplxity(0) as f64);
    assert_eq!(0.0, size_to_cplxity(1) as f64);
    assert_eq!(1.0, size_to_cplxity(2) as f64);
    assert_eq!(2.0, size_to_cplxity(3) as f64);
    assert_eq!(2.0, size_to_cplxity(4) as f64);
    assert_eq!(3.0, size_to_cplxity(5) as f64);
    assert_eq!(3.0, size_to_cplxity(8) as f64);
    assert_eq!(5.0, size_to_cplxity(31) as f64);
}

#[test]
fn binary_search_arbitrary_starts_in_the_middle() {
    let order: Vec<u8> = (0..=4).map(|s| binary_search_arbitrary_u8(0, 4, s)).collect();
    assert_eq!(order, vec![2, 4, 1, 3, 0]);
    let order: Vec<u16> = (0..=5).map(|s| binary_search_arbitrary_u16(10, 15, s)).collect();
    assert_eq!(order, vec![12, 14, 11, 15, 10, 13]);
    assert_eq!(binary_search_arbitrary_u32(0, 1, 0), 1);
    assert_eq!(binary_search_arbitrary_u32(0, 1, 1), 0);
    assert_eq!(binary_search_arbitrary_u64(7, 7, 0), 7);
}

#[test]
fn binary_search_arbitrary_enumerates_each_value_once() {
    for high in 0..200u64 {
        let mut seen = HashSet::new();
        for step in 0..=high {
            let v = binary_search_arbitrary_u64(0, high, step);
            assert!(v <= high);
            assert!(seen.insert(v));
        }
        assert_eq!(seen.len() as u64, high + 1);
    }
}

#[test]
fn ordered_mutate_then_unmutate() {
    let m = U32WithinRangeMutator::new(Bound::Included(100), Bound::Included(110));
    let mut value = 105u32;
    let mut step = 0u64;
    let (token, cplx) = m.ordered_mutate(&mut value, &mut step, 64).unwrap();
    assert_eq!(token, 105);
    assert_eq!(cplx, 32);
    assert_eq!(value, 105);
    assert_eq!(step, 1);
    let (token, _) = m.ordered_mutate(&mut value, &mut step, 64).unwrap();
    assert_eq!(token, 105);
    assert_eq!(value, 108);
    m.unmutate(&mut value, token);
    assert_eq!(value, 105);
    assert!(m.ordered_mutate(&mut value, &mut step, 31).is_none());
    assert_eq!(step, 2);
}

#[test]
fn ordered_arbitrary_stops_after_the_range() {
    let m = I64WithinRangeMutator::new(Bound::Excluded(-3), Bound::Excluded(3));
    let mut step = 0u64;
    let mut values = vec![];
    while let Some((x, cplx)) = m.ordered_arbitrary(&mut step, 64) {
        assert_eq!(cplx, 64);
        values.push(x);
    }
    assert_eq!(values, vec![0, 2, -1, 1, -2]);
    assert_eq!(step, 5);
    assert_eq!(m.global_search_space_complexity(), 2);
}

#[test]
fn random_values_stay_in_the_range() {
    let m = U8WithinRangeMutator::new(Bound::Unbounded, Bound::Included(3));
    let mut value = 2u8;
    for _ in 0..100 {
        let (old, _) = m.random_mutate(&mut value);
        assert!(old <= 3);
        assert!(value <= 3);
        assert!(m.validate_value(&value).is_some());
    }
    assert!(m.validate_value(&4).is_none());
    assert_eq!(m.complexity(&1), 8);
    assert_eq!(m.min_complexity(), 8);
    assert_eq!(m.max_complexity(), 8);
    assert_eq!(m.default_arbitrary_step(), 0);
    assert_eq!(m.default_mutation_step(&1), 0);
}
