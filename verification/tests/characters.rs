use fuzzcheck_mutators::bool::{ArbitraryStep, BoolMutator};
use fuzzcheck_mutators::bounds::Bound;
use fuzzcheck_mutators::char::{complexity_of_char, CharWithinRangeMutator};
use fuzzcheck_mutators::character_classes::CharacterMutator;
use std::collections::HashSet;

#[test]
fn char_classes_test() {
    let chars = vec!['a'..='c', 'f'..='t', '0'..='9'];
    let mutator = CharacterMutator::new(chars);
    println!("{:?}", mutator);

    let mut step = mutator.default_arbitrary_step();
    for i in 0..30 {
        if let Some((ch, _)) = mutator.ordered_arbitrary(&mut step, 10) {
            println!("{}: {}", i, ch);
        } else {
            println!("{}: none", i);
        }
    }
}

#[test]
fn character_classes_number_their_characters() {
    let mutator = CharacterMutator::new(vec!['a'..='c', 'z'..='a', 'f'..='h']);
    let chars: Vec<Option<char>> = (0..6).map(|i| mutator.get_char(i)).collect();
    assert_eq!(chars, vec![Some('a'), Some('b'), Some('c'), Some('f'), Some('g'), Some('h')]);
    assert!(mutator.is_valid(&'g'));
    assert!(!mutator.is_valid(&'d'));
    assert!(mutator.validate_value(&'a').is_some());
    assert!(mutator.validate_value(&'z').is_none());
    assert_eq!(mutator.min_complexity(), 8);
    assert_eq!(mutator.max_complexity(), 32);
    assert_eq!(mutator.global_search_space_complexity(), 3);
}

#[test]
fn character_classes_ordered_arbitrary_gives_each_character_once() {
    let mutator = CharacterMutator::new(vec!['a'..='e', 'x'..='z']);
    let mut step = 0;
    let mut seen = HashSet::new();
    while let Some((c, cplx)) = mutator.ordered_arbitrary(&mut step, 100) {
        assert_eq!(cplx, 8);
        assert!(mutator.is_valid(&c));
        assert!(seen.insert(c));
    }
    assert_eq!(step, 8);
    assert_eq!(seen.len(), 8);
}

#[test]
fn a_single_character_class() {
    let mutator = CharacterMutator::new(vec!['é'..='é']);
    assert_eq!(mutator.min_complexity(), 16);
    assert_eq!(mutator.max_complexity(), 16);
    let mut value = 'x';
    let mut step = 0;
    let (old, cplx) = mutator.ordered_mutate(&mut value, &mut step, 100).unwrap();
    assert_eq!((old, cplx, value), ('x', 16, 'é'));
    assert!(mutator.ordered_mutate(&mut value, &mut step, 100).is_none());
    mutator.unmutate(&mut value, old);
    assert_eq!(value, 'x');
}

#[test]
fn character_class_across_the_surrogates() {
    // The indices are counted without the surrogates, but an index is turned into a code
    // point by adding it to the start of the range, so the last index falls on the first
    // surrogate.
    let mutator = CharacterMutator::new(vec!['\u{D7FF}'..='\u{E000}']);
    assert_eq!(mutator.get_char(0), Some('\u{D7FF}'));
    assert_eq!(mutator.get_char(1), None);
    let mut step = 0;
    let mut seen = vec![];
    while let Some((c, _)) = mutator.ordered_arbitrary(&mut step, 100) {
        seen.push(c);
    }
    assert_eq!(seen, vec!['\u{D7FF}']);
}

#[test]
fn random_characters_of_a_class_are_valid() {
    let mutator = CharacterMutator::new(vec!['0'..='9', 'A'..='F']);
    let mut value = '5';
    for _ in 0..100 {
        if let Some((c, _)) = mutator.random_arbitrary() {
            assert!(mutator.is_valid(&c));
        }
        if let Some((old, _)) = mutator.random_mutate(&mut value) {
            assert!(mutator.is_valid(&old));
        }
        assert!(mutator.is_valid(&value));
    }
}

#[test]
fn char_within_range_in_order() {
    let m = CharWithinRangeMutator::new(Bound::Included('a'), Bound::Excluded('f'));
    let mut step = 0;
    let mut chars = vec![];
    while let Some((c, cplx)) = m.ordered_arbitrary(&mut step, 32) {
        assert_eq!(cplx, 8);
        chars.push(c);
    }
    assert_eq!(chars, vec!['c', 'e', 'b', 'd', 'a']);
    assert!(m.is_valid(&'e'));
    assert!(!m.is_valid(&'f'));
    assert_eq!(m.validate_value(&'a'), Some(8));
    assert_eq!(m.validate_value(&'z'), None);
    let mut step = 0;
    assert!(m.ordered_arbitrary(&mut step, 7).is_none());
    assert_eq!(step, 0);
}

#[test]
fn char_within_range_mutations_skip_the_current_value() {
    let m = CharWithinRangeMutator::new(Bound::Included('a'), Bound::Included('c'));
    let mut value = 'b';
    let mut step = m.default_mutation_step(&value, &8);
    let (old, _) = m.ordered_mutate(&mut value, &mut step, 32).unwrap();
    assert_eq!((old, value, step), ('b', 'c', 2));
    m.unmutate(&mut value, old);
    let (_, _) = m.ordered_mutate(&mut value, &mut step, 32).unwrap();
    assert_eq!(value, 'a');
    assert!(m.ordered_mutate(&mut value, &mut step, 32).is_none());
}

#[test]
fn char_within_range_over_the_surrogates_skips_them() {
    let m = CharWithinRangeMutator::new(Bound::Included('\u{D7FE}'), Bound::Included('\u{E001}'));
    let mut step = 0;
    let mut chars = HashSet::new();
    while let Some((c, cplx)) = m.ordered_arbitrary(&mut step, 32) {
        assert_eq!(cplx, 24);
        assert!(m.is_valid(&c));
        chars.insert(c);
    }
    assert!(chars.len() <= 4);
    for _ in 0..50 {
        let mut value = 'a';
        let (old, cplx) = m.random_mutate(&mut value);
        assert_eq!(old, 'a');
        assert!(value == 'a' || m.is_valid(&value));
        assert_eq!(cplx, complexity_of_char(value));
    }
}

#[test]
fn complexity_of_characters() {
    assert_eq!(complexity_of_char('a'), 8);
    assert_eq!(complexity_of_char('é'), 16);
    assert_eq!(complexity_of_char('€'), 24);
    assert_eq!(complexity_of_char('𝄞'), 32);
}

#[test]
fn bool_in_order_then_flips() {
    let m = BoolMutator::new();
    let mut step = m.default_arbitrary_step();
    assert_eq!(step, ArbitraryStep::Never);
    assert_eq!(m.ordered_arbitrary(&mut step, 1), Some((false, 1)));
    assert_eq!(m.ordered_arbitrary(&mut step, 1), Some((true, 1)));
    assert_eq!(m.ordered_arbitrary(&mut step, 1), None);
    let mut step = ArbitraryStep::default();
    assert_eq!(m.ordered_arbitrary(&mut step, 0), None);
    assert_eq!(step, ArbitraryStep::Never);

    let mut value = true;
    let mut mstep = m.default_mutation_step(&value);
    assert_eq!(m.ordered_mutate(&mut value, &mut mstep, 1), Some((true, 1)));
    assert!(!value);
    assert_eq!(m.ordered_mutate(&mut value, &mut mstep, 1), None);
    m.unmutate(&mut value, true);
    assert!(value);
    let (old, _) = m.random_mutate(&mut value);
    assert!(old && !value);
    let (old, _) = m.crossover_mutate(&mut value);
    assert!(!old && value);
    assert!(m.is_valid(&false));
    assert_eq!(m.validate_value(&true), Some(()));
    assert_eq!(m.complexity(&true), 1);
    let (_, c) = m.random_arbitrary();
    assert_eq!(c, 1);
}

#[test]
fn random_draws_without_surrogates_always_give_a_character() {
    let class = CharacterMutator::new(vec!['0'..='9', 'A'..='F']);
    let range = CharWithinRangeMutator::new(Bound::Included('a'), Bound::Included('z'));
    let mut value = 'x';
    for _ in 0..100 {
        assert!(class.random_arbitrary().is_some());
        assert!(class.random_mutate(&mut value).is_some());
        assert!(class.is_valid(&value));
        let (c, _) = range.random_arbitrary().unwrap();
        assert!(range.is_valid(&c));
    }
}

#[test]
fn char_within_range_random_mutate_lands_in_the_range() {
    let m = CharWithinRangeMutator::new(Bound::Included('a'), Bound::Included('z'));
    for _ in 0..50 {
        let mut value = '!';
        let (old, cplx) = m.random_mutate(&mut value);
        assert_eq!(old, '!');
        assert!(('a'..='z').contains(&value));
        assert_eq!(cplx, 8);
    }
}
