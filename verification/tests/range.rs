use fuzzcheck_mutators::range::{range_inclusive_from_tuple, tuple_from_range_inclusive};

#[test]
fn inclusive_range_from_a_pair_and_back() {
    let r = range_inclusive_from_tuple(&(3u8, 7u8));
    assert_eq!(r, 3..=7);
    assert_eq!(tuple_from_range_inclusive(&r), Some((3, 7)));
    assert_eq!(tuple_from_range_inclusive(&('x'..='a')), Some(('x', 'a')));
    let s = range_inclusive_from_tuple(&(String::from("a"), String::from("b")));
    assert_eq!(tuple_from_range_inclusive(&s), Some((String::from("a"), String::from("b"))));
}
