//! Mutators of characters: `CharWithinRangeMutator` over a range of code points.

use crate::bounds::Bound;
use crate::integer::{
    binary_search_arbitrary, binary_search_arbitrary_u32, binary_search_step, lemma_step_gives_value_in_range,
    lemma_value_has_step, size_cplxity, size_to_cplxity,
};
use crate::random::{new_rng, random_u32_in};
use vstd::prelude::*;

verus! {

/// Whether `i` is a Unicode scalar value: a code point that is not a surrogate.
pub open spec fn is_scalar(i: int) -> bool {
    (0 <= i < 0xD800) || (0xDFFF < i <= 0x10FFFF)
}

/// `char::from_u32` (std): the character whose code point is `i`, when `i` is a Unicode
/// scalar value, as the documentation says; `None` otherwise.
pub assume_specification[ core::char::from_u32 ](i: u32) -> (r: Option<char>)
    ensures
        r is Some <==> is_scalar(i as int),
        r matches Some(c) ==> c as u32 == i,
;

/// The number of bytes of the UTF-8 encoding of the code point `c`.
pub open spec fn utf8_len(c: int) -> int {
    if c < 0x80 {
        1
    } else if c < 0x800 {
        2
    } else if c < 0x10000 {
        3
    } else {
        4
    }
}

/// The byte offset, in UTF-8, of the character at index `n` of `s`: the number of bytes
/// of the characters before it.
pub open spec fn utf8_offset(s: Seq<char>, n: int) -> int
    decreases n,
{
    if n <= 0 || n > s.len() {
        0
    } else {
        utf8_offset(s, n - 1) + utf8_len(s[n - 1] as u32 as int)
    }
}

/// Byte offsets grow with the index of the character: the offset of a later character is
/// greater.
pub proof fn lemma_utf8_offset_increases(s: Seq<char>, a: int, b: int)
    requires
        0 <= a < b <= s.len(),
    ensures
        utf8_offset(s, a) < utf8_offset(s, b),
        utf8_offset(s, a) >= 0,
    decreases b,
{
    if a < b - 1 {
        lemma_utf8_offset_increases(s, a, b - 1);
    } else {
        lemma_utf8_offset_nonneg(s, a);
    }
}

proof fn lemma_utf8_offset_nonneg(s: Seq<char>, n: int)
    ensures
        utf8_offset(s, n) >= 0,
    decreases n,
{
    if n > 0 && n <= s.len() {
        lemma_utf8_offset_nonneg(s, n - 1);
    }
}

/// `char::len_utf8` (std): the number of bytes of the UTF-8 encoding of `c`, which its
/// documentation gives by the range of the code point.
#[verifier::external_body]
pub(crate) fn len_utf8(c: char) -> (n: usize)
    ensures
        n == utf8_len(c as u32 as int),
{
    c.len_utf8()
}

/// The complexity of a character: the number of bits of its UTF-8 encoding.
pub fn complexity_of_char(c: char) -> (n: u32)
    ensures
        n == 8 * utf8_len(c as u32 as int),
{
    let v = c as u32;
    if v < 0x80 {
        8
    } else if v < 0x800 {
        16
    } else if v < 0x10000 {
        24
    } else {
        32
    }
}

/// The first code point admitted by a start bound.
pub open spec fn char_start_of(b: Bound<char>) -> int {
    match b {
        Bound::Included(c) => c as u32 as int,
        Bound::Excluded(c) => c as u32 + 1,
        Bound::Unbounded => 0,
    }
}

/// The last code point admitted by an end bound.
pub open spec fn char_end_of(b: Bound<char>) -> int {
    match b {
        Bound::Included(c) => c as u32 as int,
        Bound::Excluded(c) => c as u32 - 1,
        Bound::Unbounded => u32::MAX as int,
    }
}

/// The characters whose code points are within a range.
pub struct CharWithinRangeMutator {
    start_range: u32,
    len_range: u32,
    rng: fastrand::Rng,
    search_space_complexity: u32,
}

/// The search of `ordered_arbitrary` from `step` through the code points of the range of
/// `len + 1` of them from `start`: the first code point generated that is a character,
/// and the step after it. A step that falls on a code point that is no character is
/// skipped together with the one after it.
pub open spec fn char_arbitrary_search(start: int, len: int, step: int) -> (Option<int>, int)
    decreases len + 2 - step,
{
    if step > len || step < 0 {
        (None, step)
    } else {
        let v = start + binary_search_arbitrary(0, len, step);
        if is_scalar(v) {
            (Some(v), step + 1)
        } else {
            char_arbitrary_search(start, len, step + 2)
        }
    }
}

/// The search of `ordered_mutate` from `step`: the first code point generated that is a
/// character other than `current`, and the step after it.
pub open spec fn char_mutate_search(start: int, len: int, step: int, current: int) -> (Option<int>, int)
    decreases len + 1 - step,
{
    if step > len || step < 0 {
        (None, step)
    } else {
        let v = start + binary_search_arbitrary(0, len, step);
        if is_scalar(v) && v != current {
            (Some(v), step + 1)
        } else {
            char_mutate_search(start, len, step + 1, current)
        }
    }
}


/// Every character of the range `start..=start + len` is generated, and reached by a
/// mutation from any other character, at the step where the order of the range puts its
/// code point: the search from that step gives that character and moves to the next step.
pub proof fn lemma_every_character_has_a_step(start: int, len: int, c: int, current: int)
    requires
        0 <= len,
        start <= c <= start + len,
        is_scalar(c),
        current != c,
    ensures
        exists|step: int|
            0 <= step <= len && start + binary_search_arbitrary(0, len, step) == c && #[trigger] char_arbitrary_search(
                start,
                len,
                step,
            ) == (Some(c), step + 1) && char_mutate_search(start, len, step, current) == (Some(c), step + 1),
{
    lemma_value_has_step(0, len, c - start);
    let step = binary_search_step(0, len, c - start);
    assert(char_arbitrary_search(start, len, step) == (Some(c), step + 1));
    assert(char_mutate_search(start, len, step, current) == (Some(c), step + 1));
}

/// The characters that the searches find are within the range.
pub proof fn lemma_char_searches_stay_in_range(start: int, len: int, step: int, current: int)
    requires
        0 <= len,
    ensures
        char_arbitrary_search(start, len, step).0 matches Some(v) ==> start <= v <= start + len,
        char_mutate_search(start, len, step, current).0 matches Some(v) ==> start <= v <= start + len
            && v != current,
    decreases len + 2 - step,
{
    if 0 <= step <= len {
        lemma_step_gives_value_in_range(0, len, step);
        lemma_char_searches_stay_in_range(start, len, step + 1, current);
        lemma_char_searches_stay_in_range(start, len, step + 2, current);
    }
}

impl CharWithinRangeMutator {
    #[verifier::type_invariant]
    spec fn inv(&self) -> bool {
        &&& self.start_range + self.len_range <= u32::MAX
        &&& self.search_space_complexity == size_cplxity(self.len_range as usize)
    }

    /// The first code point of the range.
    pub closed spec fn start(&self) -> int {
        self.start_range as int
    }

    /// The number of code points of the range, minus one.
    pub closed spec fn len(&self) -> int {
        self.len_range as int
    }

    /// The last code point of the range.
    pub open spec fn end(&self) -> int {
        self.start() + self.len()
    }

    /// The mutator of the characters between the bounds `start` and `end`.
    pub fn new(start: Bound<char>, end: Bound<char>) -> (m: Self)
        requires
            end != Bound::Excluded('\0'),
            char_start_of(start) <= char_end_of(end),
        ensures
            m.start() == char_start_of(start),
            m.end() == char_end_of(end),
    {
        let first: u32 = match start {
            Bound::Included(b) => b as u32,
            Bound::Excluded(b) => {
                proof {
                    vstd::utf8::char_is_scalar(b);
                }
                b as u32 + 1
            },
            Bound::Unbounded => 0,
        };
        let last: u32 = match end {
            Bound::Included(b) => b as u32,
            Bound::Excluded(b) => {
                proof {
                    vstd::utf8::char_u32_cast(b, b as u32);
                }
                b as u32 - 1
            },
            Bound::Unbounded => u32::MAX,
        };
        let len_range = last - first;
        CharWithinRangeMutator {
            start_range: first,
            len_range,
            rng: new_rng(),
            search_space_complexity: size_to_cplxity(len_range as usize),
        }
    }

    /// The last code point of the range.
    fn last(&self) -> (v: u32)
        ensures
            v == self.end(),
    {
        proof {
            use_type_invariant(self);
        }
        self.start_range + self.len_range
    }

    /// Whether the code point of `value` is within the range.
    pub fn is_valid(&self, value: &char) -> (b: bool)
        ensures
            b == (self.start() <= *value as u32 <= self.end()),
    {
        let v = *value as u32;
        self.start_range <= v && v <= self.last()
    }

    /// The complexity of `value`, its cache, when it is within the range.
    pub fn validate_value(&self, value: &char) -> (c: Option<u32>)
        ensures
            c is Some <==> self.start() <= *value as u32 <= self.end(),
            c matches Some(n) ==> n == 8 * utf8_len(*value as u32 as int),
    {
        if self.is_valid(value) {
            Some(complexity_of_char(*value))
        } else {
            None
        }
    }

    /// The generation in order starts at step 0.
    pub fn default_arbitrary_step(&self) -> (step: u64)
        ensures
            step == 0,
    {
        0
    }

    /// The mutations in order start at step 0.
    pub fn default_mutation_step(&self, value: &char, cache: &u32) -> (step: u64)
        ensures
            step == 0,
    {
        0
    }

    /// The complexity of choosing a code point of the range.
    pub fn global_search_space_complexity(&self) -> (c: u32)
        ensures
            c == size_cplxity(self.len() as usize),
    {
        proof {
            use_type_invariant(self);
        }
        self.search_space_complexity
    }

    /// The greatest complexity of a character: 32 bits.
    pub fn max_complexity(&self) -> (c: u32)
        ensures
            c == 32,
    {
        32
    }

    /// The least complexity of a character: 8 bits.
    pub fn min_complexity(&self) -> (c: u32)
        ensures
            c == 8,
    {
        8
    }

    /// The complexity of a character is its cache.
    pub fn complexity(&self, value: &char, cache: &u32) -> (c: u32)
        ensures
            c == *cache,
    {
        *cache
    }

    /// The next character in order, as `char_arbitrary_search` says, when the greatest
    /// complexity `max_cplx` admits one.
    pub fn ordered_arbitrary(&self, step: &mut u64, max_cplx: u32) -> (r: Option<(char, u32)>)
        ensures
            max_cplx < 8 ==> r is None && *final(step) == *old(step),
            max_cplx >= 8 ==> {
                let s = char_arbitrary_search(self.start(), self.len(), *old(step) as int);
                &&& *final(step) == s.1
                &&& s.0 is None ==> r is None
                &&& s.0 matches Some(v) ==> r matches Some((c, n)) && c as u32 == v && n == 8 * utf8_len(v)
                    && self.start() <= v <= self.end()
            },
            max_cplx >= 8 && *old(step) <= self.len() && is_scalar(
                self.start() + binary_search_arbitrary(0, self.len(), *old(step) as int),
            ) ==> (r matches Some((c, n)) && c as u32 == self.start() + binary_search_arbitrary(0, self.len(), *old(step) as int)
                && n == 8 * utf8_len(c as u32 as int) && *final(step) == *old(step) + 1),
    {
        proof {
            use_type_invariant(self);
        }
        if max_cplx < 8 {
            return None;
        }
        proof {
            lemma_char_searches_stay_in_range(self.start(), self.len(), *step as int, 0);
        }
        let len = self.len_range as u64;
        if *step > len {
            return None;
        }
        loop
            invariant
                self.start_range + self.len_range <= u32::MAX,
                len == self.len(),
                max_cplx >= 8,
                char_arbitrary_search(self.start(), self.len(), *step as int) == char_arbitrary_search(
                    self.start(),
                    self.len(),
                    *old(step) as int,
                ),
                *step <= len + 2,
            decreases len + 2 - *step,
        {
            if *step > len {
                return None;
            }
            proof {
                lemma_step_gives_value_in_range(0, self.len(), *step as int);
            }
            let result = binary_search_arbitrary_u32(0, self.len_range, *step);
            *step = *step + 1;
            match core::char::from_u32(self.start_range + result) {
                Some(c) => {
                    return Some((c, complexity_of_char(c)));
                },
                None => {
                    *step = *step + 1;
                },
            }
        }
    }

    /// The character of a code point drawn at random in the range, with its complexity;
    /// `None` when the code point drawn is no character (the caller draws again), which
    /// cannot happen when every code point of the range is a character.
    pub fn random_arbitrary(&self) -> (r: Option<(char, u32)>)
        ensures
            exists|v: int|
                #![trigger is_scalar(v)]
                self.start() <= v <= self.end() && (r is Some <==> is_scalar(v)) && (r matches Some((c, n)) ==> c as u32
                    == v),
            (forall|v: int| self.start() <= v <= self.end() ==> #[trigger] is_scalar(v)) ==> r is Some,
            r matches Some((c, n)) ==> self.start() <= c as u32 <= self.end() && n == 8 * utf8_len(c as u32 as int),
    {
        let v = random_u32_in(&self.rng, self.start_range, self.last());
        let r = match core::char::from_u32(v) {
            Some(c) => Some((c, complexity_of_char(c))),
            None => None,
        };
        proof {
            let w = v as int;
            assert(self.start() <= w <= self.end() && (r is Some <==> is_scalar(w)) && (r matches Some((c, n)) ==> c as u32
                == w));
        }
        r
    }

    /// Replaces `value` by the next character in order other than itself, as
    /// `char_mutate_search` says, and gives back the old one, when the greatest complexity
    /// `max_cplx` admits a character.
    pub fn ordered_mutate(&self, value: &mut char, step: &mut u64, max_cplx: u32) -> (r: Option<(char, u32)>)
        ensures
            max_cplx < 8 ==> r is None && *final(step) == *old(step) && *final(value) == *old(value),
            max_cplx >= 8 ==> {
                let s = char_mutate_search(self.start(), self.len(), *old(step) as int, *old(value) as u32 as int);
                &&& *final(step) == s.1
                &&& s.0 is None ==> r is None && *final(value) == *old(value)
                &&& s.0 matches Some(v) ==> r matches Some((t, n)) && t == *old(value) && n == 8 * utf8_len(v) && *final(value) as u32 == v
                    && self.start() <= v <= self.end() && *final(value) != *old(value)
            },
            max_cplx >= 8 && *old(step) <= self.len() && is_scalar(
                self.start() + binary_search_arbitrary(0, self.len(), *old(step) as int),
            ) && self.start() + binary_search_arbitrary(0, self.len(), *old(step) as int) != *old(value) as u32 ==> (r matches Some((t, n)) && t == *old(value) && n == 8 * utf8_len(*final(value) as u32 as int)
                && *final(value) as u32 == self.start() + binary_search_arbitrary(0, self.len(), *old(step) as int)
                && *final(step) == *old(step) + 1),
    {
        proof {
            use_type_invariant(self);
        }
        if max_cplx < 8 {
            return None;
        }
        proof {
            lemma_char_searches_stay_in_range(self.start(), self.len(), *step as int, *value as u32 as int);
        }
        let len = self.len_range as u64;
        let current = *value;
        if *step > len {
            return None;
        }
        loop
            invariant
                self.start_range + self.len_range <= u32::MAX,
                len == self.len(),
                max_cplx >= 8,
                current == *old(value),
                *value == *old(value),
                char_mutate_search(self.start(), self.len(), *step as int, current as u32 as int) == char_mutate_search(
                    self.start(),
                    self.len(),
                    *old(step) as int,
                    *old(value) as u32 as int,
                ),
                *step <= len + 1,
            decreases len + 1 - *step,
        {
            if *step > len {
                return None;
            }
            proof {
                lemma_step_gives_value_in_range(0, self.len(), *step as int);
            }
            let result = binary_search_arbitrary_u32(0, self.len_range, *step);
            *step = *step + 1;
            match core::char::from_u32(self.start_range + result) {
                Some(c) => {
                    proof {
                        vstd::utf8::char_u32_cast(c, c as u32);
                        vstd::utf8::char_u32_cast(current, current as u32);
                    }
                    if c != current {
                        *value = c;
                        return Some((current, complexity_of_char(c)));
                    }
                },
                None => {},
            }
        }
    }

    /// Replaces `value` by the character of a code point drawn at random in the range, or
    /// leaves it when the code point is no character (which cannot happen when every code
    /// point of the range is a character); gives back the old value and the complexity of
    /// the new one.
    pub fn random_mutate(&self, value: &mut char) -> (r: (char, u32))
        ensures
            r.0 == *old(value),
            r.1 == 8 * utf8_len(*final(value) as u32 as int),
            *final(value) == *old(value) || self.start() <= *final(value) as u32 <= self.end(),
            exists|v: int|
                #![trigger is_scalar(v)]
                self.start() <= v <= self.end() && (is_scalar(v) ==> *final(value) as u32 == v) && (!is_scalar(v)
                    ==> *final(value) == *old(value)),
            (forall|v: int| self.start() <= v <= self.end() ==> #[trigger] is_scalar(v)) ==> self.start()
                <= *final(value) as u32 <= self.end(),
    {
        let v = random_u32_in(&self.rng, self.start_range, self.last());
        let old_value = *value;
        match core::char::from_u32(v) {
            Some(c) => {
                *value = c;
            },
            None => {},
        }
        proof {
            let w = v as int;
            assert(self.start() <= w <= self.end() && (is_scalar(w) ==> *value as u32 == w) && (!is_scalar(w)
                ==> *value == old_value));
        }
        (old_value, complexity_of_char(*value))
    }

    /// Puts back the character `t` that a mutation replaced.
    pub fn unmutate(&self, value: &mut char, t: char)
        ensures
            *final(value) == t,
    {
        *value = t;
    }
}

} // verus!
