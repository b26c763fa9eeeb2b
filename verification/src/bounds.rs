use vstd::prelude::*;

verus! {

/// A bound of a range: the start or the end of the values it admits.
#[derive(Debug, Clone, Copy, PartialEq, Eq)]
pub enum Bound<T> {
    Included(T),
    Excluded(T),
    Unbounded,
}

} // verus!
