//! The mutator of a character within a list of ranges: the characters of the ranges are
//! numbered one after the other, and an index is turned back into a character.

use crate::char::{complexity_of_char, is_scalar, utf8_len};
use crate::integer::{
    binary_search_arbitrary, binary_search_arbitrary_u32, binary_search_step, lemma_binary_search_arbitrary_enumerates,
    lemma_step_gives_value_in_range, size_cplxity, size_to_cplxity,
};
use crate::random::{new_rng, random_u32_in};
use std::ops::{Range, RangeInclusive};
use vstd::prelude::*;

verus! {

/// `RangeInclusive::is_empty` (std) on characters: whether the range has no character,
/// that is, its start is after its end, or it was iterated to its end.
#[verifier::external_body]
fn char_range_is_empty(r: &RangeInclusive<char>) -> (b: bool)
    ensures
        b == (r@.exhausted || (r@.end as u32) < (r@.start as u32)),
{
    r.is_empty()
}

/// The number of characters from `a` to `b` (the surrogates are no characters).
pub open spec fn char_count(r: (char, char)) -> int {
    let a = r.0 as u32 as int;
    let b = r.1 as u32 as int;
    if b < a {
        0
    } else if a < 0xD800 && b > 0xDFFF {
        b - a + 1 - 0x800
    } else {
        b - a + 1
    }
}

/// The number of characters in the first `k` ranges.
pub open spec fn prefix_count(ranges: Seq<(char, char)>, k: int) -> int
    decreases k,
{
    if k <= 0 {
        0
    } else {
        prefix_count(ranges, k - 1) + char_count(ranges[k - 1])
    }
}

/// The ranges of `rs` that are not empty, in order, by their bounds.
pub open spec fn kept_ranges(rs: Seq<RangeInclusive<char>>) -> Seq<(char, char)>
    decreases rs.len(),
{
    if rs.len() == 0 {
        seq![]
    } else {
        let r = rs.last();
        let prev = kept_ranges(rs.drop_last());
        if r@.exhausted || (r@.end as u32) < (r@.start as u32) {
            prev
        } else {
            prev.push((r@.start, r@.end))
        }
    }
}

/// The code point that index `idx` stands for, searching from the `k`-th range: the
/// index within the range that holds it, added to the range's start (-1 past the end).
pub open spec fn code_point_from(ranges: Seq<(char, char)>, k: int, idx: int) -> int
    decreases ranges.len() - k,
{
    if k < 0 || k >= ranges.len() {
        -1
    } else if idx < prefix_count(ranges, k + 1) {
        ranges[k].0 as u32 + idx - prefix_count(ranges, k)
    } else {
        code_point_from(ranges, k + 1, idx)
    }
}

/// The code point that index `idx` stands for.
pub open spec fn code_point_at(ranges: Seq<(char, char)>, idx: int) -> int {
    code_point_from(ranges, 0, idx)
}

/// The search of `ordered_arbitrary` and `ordered_mutate` from `step` through the indices
/// of `total` characters: the first index generated whose code point is a character, and
/// the step after it.
pub open spec fn class_search(ranges: Seq<(char, char)>, total: int, step: int) -> (Option<int>, int)
    decreases total - step,
{
    if step >= total || step < 0 {
        (None, step)
    } else {
        let v = code_point_at(ranges, binary_search_arbitrary(0, total - 1, step));
        if is_scalar(v) {
            (Some(v), step + 1)
        } else {
            class_search(ranges, total, step + 1)
        }
    }
}

/// Whether the code point `v` is within one of the ranges.
pub open spec fn in_class(ranges: Seq<(char, char)>, v: int) -> bool {
    exists|k: int| 0 <= k < ranges.len() && (#[trigger] ranges[k]).0 as u32 <= v <= ranges[k].1 as u32
}

/// The least or greatest complexity of the characters of a mutator: that of its single
/// character, or `many` bits (8 for the least, 32 for the greatest) when it has several.
pub open spec fn class_complexity(ranges: Seq<(char, char)>, total: int, many: int) -> int {
    if total == 1 {
        8 * utf8_len(ranges[0].0 as u32 as int)
    } else {
        many
    }
}

/// Mutator for a `char` within a list of ranges.
#[derive(Debug)]
pub struct CharacterMutator {
    ranges: Vec<(char, char)>,
    total_length: u32,
    lengths: Vec<Range<u32>>,
    search_space_complexity: u32,
    max_cplx: u32,
    min_cplx: u32,
    rng: fastrand::Rng,
}

proof fn lemma_prefix_monotone(ranges: Seq<(char, char)>, j: int, k: int)
    requires
        0 <= j <= k,
    ensures
        prefix_count(ranges, j) <= prefix_count(ranges, k),
    decreases k - j,
{
    if j < k {
        lemma_prefix_monotone(ranges, j, k - 1);
        assert(char_count(ranges[k - 1]) >= 0);
    }
}

impl CharacterMutator {
    #[verifier::type_invariant]
    spec fn inv(&self) -> bool {
        let n = self.ranges@.len();
        &&& n >= 1
        &&& self.lengths@.len() == n
        &&& forall|k: int| 0 <= k < n ==> (#[trigger] self.ranges@[k]).0 as u32 <= self.ranges@[k].1 as u32
        &&& forall|k: int| 0 <= k < n ==> (#[trigger] self.lengths@[k]).start == prefix_count(self.ranges@, k)
            && self.lengths@[k].end == prefix_count(self.ranges@, k + 1)
        &&& self.total_length == prefix_count(self.ranges@, n as int)
        &&& self.total_length >= 1
        &&& self.min_cplx == class_complexity(self.ranges@, self.total_length as int, 8)
        &&& self.max_cplx == class_complexity(self.ranges@, self.total_length as int, 32)
        &&& self.search_space_complexity == size_cplxity(self.total_length as usize)
    }

    /// The ranges of the mutator, by their bounds.
    pub closed spec fn class_ranges(&self) -> Seq<(char, char)> {
        self.ranges@
    }

    /// The number of characters of the ranges.
    pub closed spec fn total(&self) -> int {
        self.total_length as int
    }

    /// The mutator of the characters of the ranges that are not empty; there must be one.
    pub fn new(ranges: Vec<RangeInclusive<char>>) -> (m: Self)
        requires
            kept_ranges(ranges@).len() > 0,
            prefix_count(kept_ranges(ranges@), kept_ranges(ranges@).len() as int) <= u32::MAX,
        ensures
            m.class_ranges() == kept_ranges(ranges@),
            m.total() == prefix_count(kept_ranges(ranges@), kept_ranges(ranges@).len() as int),
    {
        let ghost all = kept_ranges(ranges@);
        let mut kept: Vec<(char, char)> = Vec::new();
        let mut i: usize = 0;
        while i < ranges.len()
            invariant
                i <= ranges@.len(),
                all == kept_ranges(ranges@),
                kept@ == kept_ranges(ranges@.take(i as int)),
            decreases ranges@.len() - i,
        {
            proof {
                assert(ranges@.take(i as int + 1).drop_last() =~= ranges@.take(i as int));
            }
            let r = &ranges[i];
            if !char_range_is_empty(r) {
                kept.push((*r.start(), *r.end()));
            }
            i = i + 1;
        }
        proof {
            assert(ranges@.take(ranges@.len() as int) =~= ranges@);
        }
        let n = kept.len();
        let mut lengths: Vec<Range<u32>> = Vec::new();
        let mut total: u32 = 0;
        let mut k: usize = 0;
        while k < n
            invariant
                n == kept@.len(),
                kept@ == all,
                all == kept_ranges(ranges@),
                k <= n,
                prefix_count(all, n as int) <= u32::MAX,
                total == prefix_count(all, k as int),
                lengths@.len() == k,
                forall|j: int| 0 <= j < k ==> (#[trigger] lengths@[j]).start == prefix_count(all, j)
                    && lengths@[j].end == prefix_count(all, j + 1),
            decreases n - k,
        {
            let (a, b) = kept[k];
            let a32 = a as u32;
            let b32 = b as u32;
            proof {
                lemma_prefix_monotone(all, k as int + 1, n as int);
                lemma_kept_nonempty(ranges@, k as int);
                vstd::utf8::char_is_scalar(a);
                vstd::utf8::char_is_scalar(b);
            }
            let count: u32 = if a32 < 0xD800 && b32 > 0xDFFF {
                b32 - a32 + 1 - 0x800
            } else {
                b32 - a32 + 1
            };
            let end = total + count;
            lengths.push(total..end);
            total = end;
            k = k + 1;
        }
        let (min_cplx, max_cplx) = if total == 1 {
            let c = complexity_of_char(kept[0].0);
            (c, c)
        } else {
            (8, 32)
        };
        proof {
            assert forall|k: int| 0 <= k < n implies (#[trigger] kept@[k]).0 as u32 <= kept@[k].1 as u32 by {
                lemma_kept_nonempty(ranges@, k);
            }
            lemma_kept_nonempty(ranges@, 0);
            lemma_prefix_monotone(all, 1, n as int);
        }
        CharacterMutator {
            ranges: kept,
            total_length: total,
            lengths,
            search_space_complexity: size_to_cplxity(total as usize),
            max_cplx,
            min_cplx,
            rng: new_rng(),
        }
    }

    /// The character that index `idx` stands for, when its code point is one.
    pub fn get_char(&self, idx: u32) -> (c: Option<char>)
        requires
            idx < self.total(),
        ensures
            c is Some <==> is_scalar(code_point_at(self.class_ranges(), idx as int)),
            c matches Some(ch) ==> ch as u32 == code_point_at(self.class_ranges(), idx as int),
            in_class(self.class_ranges(), code_point_at(self.class_ranges(), idx as int)),
    {
        proof {
            use_type_invariant(self);
        }
        let n = self.lengths.len();
        let mut k: usize = 0;
        while k < n
            invariant
                n == self.lengths@.len(),
                n == self.ranges@.len(),
                k <= n,
                idx < prefix_count(self.ranges@, n as int),
                idx >= prefix_count(self.ranges@, k as int),
                code_point_from(self.ranges@, k as int, idx as int) == code_point_at(self.ranges@, idx as int),
                forall|j: int| 0 <= j < n ==> (#[trigger] self.lengths@[j]).start == prefix_count(self.ranges@, j)
                    && self.lengths@[j].end == prefix_count(self.ranges@, j + 1),
                forall|j: int| 0 <= j < n ==> (#[trigger] self.ranges@[j]).0 as u32 <= self.ranges@[j].1 as u32,
            decreases n - k,
        {
            let len_range = &self.lengths[k];
            if len_range.start <= idx && idx < len_range.end {
                let (a, _b) = self.ranges[k];
                proof {
                    lemma_range_offset_fits(self.ranges@, k as int, idx as int);
                    assert(self.ranges@[k as int].0 as u32 <= code_point_at(self.ranges@, idx as int)
                        <= self.ranges@[k as int].1 as u32);
                }
                return core::char::from_u32(a as u32 + (idx - len_range.start));
            }
            k = k + 1;
        }
        proof {
            assert(false);
        }
        None
    }

    /// Whether `value` is within one of the ranges.
    pub fn is_valid(&self, value: &char) -> (b: bool)
        ensures
            b == in_class(self.class_ranges(), *value as u32 as int),
    {
        let v = *value as u32;
        let mut k: usize = 0;
        while k < self.ranges.len()
            invariant
                k <= self.ranges@.len(),
                v == *value as u32,
                forall|j: int| 0 <= j < k ==> !((#[trigger] self.ranges@[j]).0 as u32 <= v <= self.ranges@[j].1 as u32),
            decreases self.ranges@.len() - k,
        {
            let (a, b) = self.ranges[k];
            if a as u32 <= v && v <= b as u32 {
                assert(self.class_ranges()[k as int].0 as u32 <= *value as u32 <= self.class_ranges()[k as int].1 as u32);
                return true;
            }
            k = k + 1;
        }
        false
    }

    /// `Some(())`, the cache of a value, when it is within one of the ranges.
    pub fn validate_value(&self, value: &char) -> (c: Option<()>)
        ensures
            c is Some <==> in_class(self.class_ranges(), *value as u32 as int),
    {
        if self.is_valid(value) {
            Some(())
        } else {
            None
        }
    }

    /// The generation in order starts at step 0.
    pub fn default_arbitrary_step(&self) -> (step: u64)
        ensures
            step == 0,
    {
        0
    }

    /// The mutations in order start at step 0.
    pub fn default_mutation_step(&self, value: &char) -> (step: u64)
        ensures
            step == 0,
    {
        0
    }

    /// The complexity of choosing one of the characters.
    pub fn global_search_space_complexity(&self) -> (c: u32)
        ensures
            c == size_cplxity(self.total() as usize),
    {
        proof {
            use_type_invariant(self);
        }
        self.search_space_complexity
    }

    /// The greatest complexity of a character: that of the single character, or 32 bits.
    pub fn max_complexity(&self) -> (c: u32)
        ensures
            c == class_complexity(self.class_ranges(), self.total(), 32),
    {
        proof {
            use_type_invariant(self);
        }
        self.max_cplx
    }

    /// The least complexity of a character: that of the single character, or 8 bits.
    pub fn min_complexity(&self) -> (c: u32)
        ensures
            c == class_complexity(self.class_ranges(), self.total(), 8),
    {
        proof {
            use_type_invariant(self);
        }
        self.min_cplx
    }

    /// The complexity of a character: the number of bits of its UTF-8 encoding.
    pub fn complexity(&self, value: &char) -> (c: u32)
        ensures
            c == 8 * utf8_len(*value as u32 as int),
    {
        complexity_of_char(*value)
    }

    /// Runs the search of `class_search` from `step`.
    fn ordered_search(&self, step: &mut u64) -> (r: Option<char>)
        requires
            *old(step) <= self.total(),
        ensures
            ({
                let s = class_search(self.class_ranges(), self.total(), *old(step) as int);
                &&& *final(step) == s.1
                &&& s.0 is None ==> r is None
                &&& s.0 matches Some(v) ==> r matches Some(c) && c as u32 == v && in_class(self.class_ranges(), v)
            }),
            *old(step) < self.total() && is_scalar(
                code_point_at(self.class_ranges(), binary_search_arbitrary(0, self.total() - 1, *old(step) as int)),
            ) ==> (r matches Some(c) && c as u32 == code_point_at(
                self.class_ranges(),
                binary_search_arbitrary(0, self.total() - 1, *old(step) as int),
            ) && *final(step) == *old(step) + 1),
    {
        proof {
            use_type_invariant(self);
        }
        let total = self.total_length as u64;
        loop
            invariant
                total == self.total(),
                *step <= total,
                class_search(self.ranges@, total as int, *step as int) == class_search(
                    self.ranges@,
                    total as int,
                    *old(step) as int,
                ),
            decreases total - *step,
        {
            if *step == total {
                return None;
            }
            proof {
                lemma_step_gives_value_in_range(0, total - 1, *step as int);
            }
            let idx = binary_search_arbitrary_u32(0, self.total_length - 1, *step);
            *step = *step + 1;
            match self.get_char(idx) {
                Some(c) => {
                    return Some(c);
                },
                None => {},
            }
        }
    }

    /// The next character in order, as `class_search` says, with its complexity.
    pub fn ordered_arbitrary(&self, step: &mut u64, max_cplx: u32) -> (r: Option<(char, u32)>)
        requires
            *old(step) <= self.total(),
        ensures
            ({
                let s = class_search(self.class_ranges(), self.total(), *old(step) as int);
                &&& *final(step) == s.1
                &&& s.0 is None ==> r is None
                &&& s.0 matches Some(v) ==> r matches Some((c, n)) && c as u32 == v && n == 8 * utf8_len(v)
                    && in_class(self.class_ranges(), v)
            }),
            *old(step) < self.total() && is_scalar(
                code_point_at(self.class_ranges(), binary_search_arbitrary(0, self.total() - 1, *old(step) as int)),
            ) ==> (r matches Some((c, n)) && c as u32 == code_point_at(
                self.class_ranges(),
                binary_search_arbitrary(0, self.total() - 1, *old(step) as int),
            ) && n == 8 * utf8_len(c as u32 as int) && *final(step) == *old(step) + 1),
    {
        match self.ordered_search(step) {
            Some(c) => Some((c, complexity_of_char(c))),
            None => None,
        }
    }

    /// The character that an index drawn at random stands for, with its complexity;
    /// `None` when its code point is no character (the caller draws again), which cannot
    /// happen when every index of the class stands for a character.
    pub fn random_arbitrary(&self) -> (r: Option<(char, u32)>)
        ensures
            exists|idx: int|
                #![trigger code_point_at(self.class_ranges(), idx)]
                0 <= idx < self.total() && (r is Some <==> is_scalar(code_point_at(self.class_ranges(), idx)))
                    && (r matches Some((c, n)) ==> c as u32 == code_point_at(self.class_ranges(), idx)),
            (forall|idx: int| 0 <= idx < self.total() ==> is_scalar(#[trigger] code_point_at(self.class_ranges(), idx)))
                ==> r is Some,
            r matches Some((c, n)) ==> in_class(self.class_ranges(), c as u32 as int) && n == 8 * utf8_len(c as u32 as int),
    {
        proof {
            use_type_invariant(self);
        }
        let idx = random_u32_in(&self.rng, 0, self.total_length - 1);
        let r = match self.get_char(idx) {
            Some(c) => Some((c, complexity_of_char(c))),
            None => None,
        };
        proof {
            let i = idx as int;
            assert(0 <= i < self.total() && (r is Some <==> is_scalar(code_point_at(self.class_ranges(), i)))
                && (r matches Some((c, n)) ==> c as u32 == code_point_at(self.class_ranges(), i)));
        }
        r
    }

    /// Replaces `value` by the next character in order, as `class_search` says, and gives
    /// back the old one with the complexity of the new one.
    pub fn ordered_mutate(&self, value: &mut char, step: &mut u64, max_cplx: u32) -> (r: Option<(char, u32)>)
        requires
            *old(step) <= self.total(),
        ensures
            ({
                let s = class_search(self.class_ranges(), self.total(), *old(step) as int);
                &&& *final(step) == s.1
                &&& s.0 is None ==> r is None && *final(value) == *old(value)
                &&& s.0 matches Some(v) ==> r matches Some((t, n)) && t == *old(value) && *final(value) as u32 == v
                    && n == 8 * utf8_len(v) && in_class(self.class_ranges(), v)
            }),
            *old(step) < self.total() && is_scalar(
                code_point_at(self.class_ranges(), binary_search_arbitrary(0, self.total() - 1, *old(step) as int)),
            ) ==> (r matches Some((t, n)) && t == *old(value) && *final(value) as u32 == code_point_at(
                self.class_ranges(),
                binary_search_arbitrary(0, self.total() - 1, *old(step) as int),
            ) && n == 8 * utf8_len(*final(value) as u32 as int) && *final(step) == *old(step) + 1),
    {
        match self.ordered_search(step) {
            Some(c) => {
                let old_value = *value;
                *value = c;
                Some((old_value, complexity_of_char(c)))
            },
            None => None,
        }
    }

    /// Replaces `value` by the character that an index drawn at random stands for, and
    /// gives back the old one with the complexity of the new one; `None`, with `value` as
    /// it was, when the code point is no character (the caller draws again).
    pub fn random_mutate(&self, value: &mut char) -> (r: Option<(char, u32)>)
        ensures
            exists|idx: int|
                #![trigger code_point_at(self.class_ranges(), idx)]
                0 <= idx < self.total() && (r is Some <==> is_scalar(code_point_at(self.class_ranges(), idx)))
                    && (r is Some ==> *final(value) as u32 == code_point_at(self.class_ranges(), idx)),
            (forall|idx: int| 0 <= idx < self.total() ==> is_scalar(#[trigger] code_point_at(self.class_ranges(), idx)))
                ==> r is Some,
            r is None ==> *final(value) == *old(value),
            r matches Some((t, n)) ==> t == *old(value) && n == 8 * utf8_len(*final(value) as u32 as int)
                && in_class(self.class_ranges(), *final(value) as u32 as int),
    {
        match self.random_arbitrary() {
            Some((c, n)) => {
                let old_value = *value;
                *value = c;
                Some((old_value, n))
            },
            None => None,
        }
    }

    /// Puts back the character `t` that a mutation replaced.
    pub fn unmutate(&self, value: &mut char, t: char)
        ensures
            *final(value) == t,
    {
        *value = t;
    }
}

/// Each index of the class is generated at exactly one step of `0..total`: when its code
/// point is a character, the search from that step gives that character and moves to the
/// next step.
pub proof fn lemma_every_index_has_one_step(ranges: Seq<(char, char)>, total: int, idx: int)
    requires
        0 <= idx < total,
    ensures
        exists|step: int|
            0 <= step < total && binary_search_arbitrary(0, total - 1, step) == idx && (forall|s: int|
                0 <= s < total && #[trigger] binary_search_arbitrary(0, total - 1, s) == idx ==> s == step) && (is_scalar(
                code_point_at(ranges, idx),
            ) ==> #[trigger] class_search(ranges, total, step) == (Some(code_point_at(ranges, idx)), step + 1)),
{
    lemma_binary_search_arbitrary_enumerates(0, total - 1);
    let step = binary_search_step(0, total - 1, idx);
    assert(class_search(ranges, total, step) == class_search(ranges, total, step));
}

proof fn lemma_code_point_from_skips(ranges: Seq<(char, char)>, j: int, k: int, idx: int)
    requires
        0 <= j <= k < ranges.len(),
        idx >= prefix_count(ranges, k),
    ensures
        code_point_from(ranges, j, idx) == code_point_from(ranges, k, idx),
    decreases k - j,
{
    if j < k {
        lemma_prefix_monotone(ranges, j + 1, k);
        lemma_code_point_from_skips(ranges, j + 1, k, idx);
    }
}

/// When no range of the class spans the surrogates, every character of the class is the
/// code point of some index of the class, and so is generated at some step.
pub proof fn lemma_every_class_character_has_an_index(ranges: Seq<(char, char)>, v: int)
    requires
        forall|k: int| 0 <= k < ranges.len() ==> (#[trigger] ranges[k]).0 as u32 <= ranges[k].1 as u32,
        forall|k: int|
            0 <= k < ranges.len() ==> !(((#[trigger] ranges[k]).0 as u32) < 0xD800 && (ranges[k].1 as u32) > 0xDFFF),
        in_class(ranges, v),
    ensures
        exists|idx: int| 0 <= idx < prefix_count(ranges, ranges.len() as int) && #[trigger] code_point_at(ranges, idx) == v,
{
    let k = choose|k: int| 0 <= k < ranges.len() && (#[trigger] ranges[k]).0 as u32 <= v <= ranges[k].1 as u32;
    let idx = prefix_count(ranges, k) + (v - ranges[k].0 as u32);
    lemma_code_point_from_skips(ranges, 0, k, idx);
    lemma_prefix_monotone(ranges, k + 1, ranges.len() as int);
    lemma_prefix_monotone(ranges, 0, k);
    assert(ranges[k].0 as u32 <= ranges[k].1 as u32);
    assert(!((ranges[k].0 as u32) < 0xD800 && (ranges[k].1 as u32) > 0xDFFF));
    assert(char_count(ranges[k]) == ranges[k].1 as u32 - ranges[k].0 as u32 + 1);
    assert(prefix_count(ranges, k + 1) == prefix_count(ranges, k) + char_count(ranges[k]));
    assert(idx < prefix_count(ranges, k + 1));
    assert(code_point_from(ranges, k, idx) == v);
    assert(code_point_at(ranges, idx) == v);
}

proof fn lemma_kept_nonempty(rs: Seq<RangeInclusive<char>>, k: int)
    requires
        0 <= k < kept_ranges(rs).len(),
    ensures
        kept_ranges(rs)[k].0 as u32 <= kept_ranges(rs)[k].1 as u32,
    decreases rs.len(),
{
    let prev = kept_ranges(rs.drop_last());
    if k < prev.len() {
        lemma_kept_nonempty(rs.drop_last(), k);
    }
}

proof fn lemma_range_offset_fits(ranges: Seq<(char, char)>, k: int, idx: int)
    requires
        0 <= k < ranges.len(),
        prefix_count(ranges, k) <= idx < prefix_count(ranges, k + 1),
        ranges[k].0 as u32 <= ranges[k].1 as u32,
    ensures
        ranges[k].0 as u32 + idx - prefix_count(ranges, k) <= ranges[k].1 as u32,
{
}

} // verus!
