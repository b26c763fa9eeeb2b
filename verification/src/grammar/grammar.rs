use std::ops::{Range, RangeInclusive};
use std::rc::Rc;
use crate::bounds::Bound;
use crate::char::is_scalar;
use vstd::prelude::*;

verus! {

/// `RangeInclusive::start` (std): the lower bound of the range, the one it was made with.
pub assume_specification<Idx>[ RangeInclusive::<Idx>::start ](r: &RangeInclusive<Idx>) -> (s: &Idx)
    ensures
        *s == r@.start,
;

/// `RangeInclusive::end` (std): the upper bound of the range, the one it was made with.
pub assume_specification<Idx>[ RangeInclusive::<Idx>::end ](r: &RangeInclusive<Idx>) -> (e: &Idx)
    ensures
        *e == r@.end,
;

/// A grammar which can be used for fuzzing.
///
/// A literal holds inclusive ranges of characters `(first, last)`. A recursion point
/// `Recurse(k)` refers to the `k`-th enclosing `Recursive` grammar, counting from the
/// innermost one, which has index 0.
#[derive(Debug)]
pub enum Grammar {
    Literal(Vec<(char, char)>),
    Alternation(Vec<Rc<Grammar>>),
    Concatenation(Vec<Rc<Grammar>>),
    Repetition(Rc<Grammar>, Range<usize>),
    Recurse(usize),
    Recursive(Rc<Grammar>),
}

/// The bounds `(first, last)` of a sequence of inclusive character ranges.
pub open spec fn char_ranges_view(ranges: Seq<RangeInclusive<char>>) -> Seq<(char, char)> {
    Seq::new(ranges.len(), |i: int| (ranges[i]@.start, ranges[i]@.end))
}

/// The smallest number of repetitions admitted by a start bound.
pub open spec fn repetition_start(b: Bound<usize>) -> int {
    match b {
        Bound::Included(x) => x as int,
        Bound::Excluded(x) => x + 1,
        Bound::Unbounded => 0,
    }
}

/// The first number of repetitions excluded by an end bound.
pub open spec fn repetition_end(b: Bound<usize>) -> int {
    match b {
        Bound::Included(x) => if x == usize::MAX { usize::MAX as int } else { x + 1 },
        Bound::Excluded(x) => x as int,
        Bound::Unbounded => usize::MAX as int,
    }
}

/// A grammar `Recurse(k)` is bound when fewer than `depth` recursive grammars enclose it,
/// and a grammar is closed at `depth` when all its recursion points are bound.
pub open spec fn closed_at(g: Grammar, depth: nat) -> bool
    decreases g,
{
    match g {
        Grammar::Literal(_) => true,
        Grammar::Alternation(gs) => forall|i: int| 0 <= i < gs@.len() ==> closed_at(*#[trigger] gs@[i], depth),
        Grammar::Concatenation(gs) => forall|i: int| 0 <= i < gs@.len() ==> closed_at(*#[trigger] gs@[i], depth),
        Grammar::Repetition(inner, _) => closed_at(*inner, depth),
        Grammar::Recurse(k) => k < depth,
        Grammar::Recursive(inner) => closed_at(*inner, depth + 1),
    }
}

/// Creates a grammar which matches a single character within any of the given ranges.
pub fn literal_ranges(ranges: Vec<RangeInclusive<char>>) -> (g: Rc<Grammar>)
    ensures
        *g matches Grammar::Literal(v) && v@ == char_ranges_view(ranges@),
{
    let mut v: Vec<(char, char)> = Vec::new();
    let mut i: usize = 0;
    while i < ranges.len()
        invariant
            i <= ranges@.len(),
            v@ == char_ranges_view(ranges@).take(i as int),
        decreases ranges@.len() - i,
    {
        let first = *ranges[i].start();
        let last = *ranges[i].end();
        v.push((first, last));
        assert(char_ranges_view(ranges@).take(i + 1) =~= char_ranges_view(ranges@).take(i as int).push((first, last)));
        i = i + 1;
    }
    assert(char_ranges_view(ranges@).take(ranges@.len() as int) =~= char_ranges_view(ranges@));
    Rc::new(Grammar::Literal(v))
}

/// Creates a grammar which matches a single character literal.
pub fn literal(l: char) -> (g: Rc<Grammar>)
    ensures
        *g matches Grammar::Literal(v) && v@ == seq![(l, l)],
{
    let mut v: Vec<(char, char)> = Vec::new();
    v.push((l, l));
    Rc::new(Grammar::Literal(v))
}

/// The code point of the first character admitted by a start bound.
pub open spec fn literal_start(b: Bound<char>) -> int {
    match b {
        Bound::Included(c) => c as u32 as int,
        Bound::Excluded(c) => c as u32 + 1,
        Bound::Unbounded => -1,
    }
}

/// The code point of the last character admitted by an end bound.
pub open spec fn literal_end(b: Bound<char>) -> int {
    match b {
        Bound::Included(c) => c as u32 as int,
        Bound::Excluded(c) => c as u32 - 1,
        Bound::Unbounded => -1,
    }
}

/// Creates a grammar which matches a single character between two bounds; both bounds
/// must be given, and an excluded one must be next to a character.
pub fn literal_range(start: Bound<char>, end: Bound<char>) -> (g: Rc<Grammar>)
    requires
        is_scalar(literal_start(start)),
        is_scalar(literal_end(end)),
    ensures
        *g matches Grammar::Literal(v) && v@.len() == 1 && v@[0].0 as u32 == literal_start(start)
            && v@[0].1 as u32 == literal_end(end),
{
    let first: char = match start {
        Bound::Included(c) => c,
        Bound::Excluded(c) => {
            proof {
                vstd::utf8::char_is_scalar(c);
            }
            match core::char::from_u32(c as u32 + 1) {
                Some(x) => x,
                None => c,
            }
        },
        Bound::Unbounded => 'a',
    };
    let last: char = match end {
        Bound::Included(c) => c,
        Bound::Excluded(c) => {
            proof {
                vstd::utf8::char_is_scalar(c);
            }
            match core::char::from_u32(c as u32 - 1) {
                Some(x) => x,
                None => c,
            }
        },
        Bound::Unbounded => 'a',
    };
    let mut v: Vec<(char, char)> = Vec::new();
    v.push((first, last));
    Rc::new(Grammar::Literal(v))
}

/// Produces a grammar which will choose between the provided grammars.
pub fn alternation(gs: Vec<Rc<Grammar>>) -> (g: Rc<Grammar>)
    ensures
        *g == Grammar::Alternation(gs),
{
    Rc::new(Grammar::Alternation(gs))
}

/// Produces a grammar which will concatenate the output of all the provided grammars
/// together, in order.
pub fn concatenation(gs: Vec<Rc<Grammar>>) -> (g: Rc<Grammar>)
    ensures
        *g == Grammar::Concatenation(gs),
{
    Rc::new(Grammar::Concatenation(gs))
}

/// Repeats the provided grammar some number of times within the given bounds.
pub fn repetition(gs: Rc<Grammar>, start: Bound<usize>, end: Bound<usize>) -> (g: Rc<Grammar>)
    requires
        start != Bound::<usize>::Unbounded,
        start != Bound::Excluded(usize::MAX),
    ensures
        *g matches Grammar::Repetition(inner, range) && inner == gs
            && range.start == repetition_start(start) && range.end == repetition_end(end),
{
    let first: usize = match start {
        Bound::Included(x) => x,
        Bound::Excluded(x) => x + 1,
        Bound::Unbounded => 0,
    };
    let last: usize = match end {
        Bound::Included(x) => x.saturating_add(1),
        Bound::Excluded(x) => x,
        Bound::Unbounded => usize::MAX,
    };
    Rc::new(Grammar::Repetition(gs, first..last))
}

/// A point of recursion to the `depth`-th enclosing recursive grammar (0 is the innermost).
/// Should be combined with [`recursive`].
pub fn recurse(depth: usize) -> (g: Rc<Grammar>)
    ensures
        *g == Grammar::Recurse(depth),
{
    Rc::new(Grammar::Recurse(depth))
}

/// Creates a recursive grammar: the recursion points of `body` with index 0 stand for the
/// whole of `body` again.
pub fn recursive(body: Rc<Grammar>) -> (g: Rc<Grammar>)
    ensures
        *g == Grammar::Recursive(body),
{
    Rc::new(Grammar::Recursive(body))
}

} // verus!
