//! Conversions between inclusive ranges and the pairs of their bounds.

use std::ops::RangeInclusive;
use vstd::prelude::*;

verus! {

/// The inclusive range from `t.0` to `t.1`, made of clones of the two bounds.
pub fn range_inclusive_from_tuple<T: Clone>(t: &(T, T)) -> (r: RangeInclusive<T>)
    ensures
        cloned(t.0, r@.start),
        cloned(t.1, r@.end),
        !r@.exhausted,
{
    t.0.clone()..=t.1.clone()
}

/// The bounds of an inclusive range, as a pair of clones; there always is one.
pub fn tuple_from_range_inclusive<T: Clone>(r: &RangeInclusive<T>) -> (t: Option<(T, T)>)
    ensures
        t matches Some(p) && cloned(r@.start, p.0) && cloned(r@.end, p.1),
{
    Some((r.start().clone(), r.end().clone()))
}

} // verus!
