//! Mutators of the integers within a range, one for each integer type. Values are
//! generated in order by `binary_search_arbitrary` over the offsets from the start of the
//! range, so that every value of the range comes once; complexities are numbers of bits.

use crate::bounds::Bound;
use crate::integer::{
    binary_search_arbitrary, binary_search_arbitrary_u16, binary_search_arbitrary_u32, binary_search_arbitrary_u64,
    binary_search_arbitrary_u8, binary_search_step, lemma_binary_search_arbitrary_enumerates,
    lemma_step_gives_value_in_range, size_cplxity, size_to_cplxity,
};
use crate::random::{
    new_rng, random_i16_in, random_i32_in, random_i64_in, random_i8_in, random_u16_in, random_u32_in, random_u64_in,
    random_u8_in,
};
use vstd::prelude::*;

verus! {

/// The value generated at `step` in the range of `len + 1` values from `start`.
pub open spec fn ordered_value(start: int, len: int, step: int) -> int {
    start + binary_search_arbitrary(0, len, step)
}

/// The step that follows `step` (after the last one, the first again).
pub open spec fn next_step(step: u64) -> u64 {
    if step == u64::MAX {
        0
    } else {
        (step + 1) as u64
    }
}

/// The steps `0..=len` generate every value of the range of `len + 1` values from
/// `start`, each one once: `v` at the step `binary_search_step(0, len, v - start)`.
pub proof fn lemma_ordered_values_enumerate_range(start: int, len: int)
    requires
        0 <= len,
    ensures
        forall|s: int| 0 <= s <= len ==> start <= #[trigger] ordered_value(start, len, s) <= start + len,
        forall|s1: int, s2: int|
            0 <= s1 <= len && 0 <= s2 <= len && #[trigger] ordered_value(start, len, s1) == #[trigger] ordered_value(
                start,
                len,
                s2,
            ) ==> s1 == s2,
        forall|v: int|
            start <= v <= start + len ==> 0 <= #[trigger] binary_search_step(0, len, v - start) <= len
                && ordered_value(start, len, binary_search_step(0, len, v - start)) == v,
{
    lemma_binary_search_arbitrary_enumerates(0, len);
    assert forall|v: int| start <= v <= start + len implies 0 <= #[trigger] binary_search_step(0, len, v - start) <= len
        && ordered_value(start, len, binary_search_step(0, len, v - start)) == v by {
        assert(0 <= v - start <= len);
    }
}

/// The integers of type `u8` within a range; the values are generated in the order of
/// `binary_search_arbitrary` over the range.
pub struct U8WithinRangeMutator {
    start_range: u8,
    len_range: u8,
    search_space_complexity: u32,
    rng: fastrand::Rng,
}

/// The first value admitted by a start bound of `u8` values.
pub open spec fn start_of_u8(b: Bound<u8>) -> int {
    match b {
        Bound::Included(x) => x as int,
        Bound::Excluded(x) => x + 1,
        Bound::Unbounded => u8::MIN as int,
    }
}

/// The last value admitted by an end bound of `u8` values.
pub open spec fn end_of_u8(b: Bound<u8>) -> int {
    match b {
        Bound::Included(x) => x as int,
        Bound::Excluded(x) => x - 1,
        Bound::Unbounded => u8::MAX as int,
    }
}

/// The bounds admit at least one value (an excluded bound at the edge of the type admits
/// none).
pub open spec fn admits_values_u8(start: Bound<u8>, end: Bound<u8>) -> bool {
    &&& start != Bound::Excluded(u8::MAX)
    &&& end != Bound::Excluded(u8::MIN)
    &&& start_of_u8(start) <= end_of_u8(end)
}

impl U8WithinRangeMutator {
    #[verifier::type_invariant]
    spec fn inv(&self) -> bool {
        &&& self.start_range + self.len_range <= u8::MAX
        &&& self.search_space_complexity == size_cplxity(self.len_range as usize)
    }

    /// The least value of the range.
    pub closed spec fn start(&self) -> int {
        self.start_range as int
    }

    /// The number of values of the range, minus one.
    pub closed spec fn len(&self) -> int {
        self.len_range as int
    }

    /// The greatest value of the range.
    pub open spec fn end(&self) -> int {
        self.start() + self.len()
    }

    /// The mutator of the values between the bounds `start` and `end`.
    pub fn new(start: Bound<u8>, end: Bound<u8>) -> (m: Self)
        requires
            admits_values_u8(start, end),
        ensures
            m.start() == start_of_u8(start),
            m.end() == end_of_u8(end),
    {
        let first: u8 = match start {
            Bound::Included(b) => b,
            Bound::Excluded(b) => b + 1,
            Bound::Unbounded => u8::MIN,
        };
        let last: u8 = match end {
            Bound::Included(b) => b,
            Bound::Excluded(b) => b - 1,
            Bound::Unbounded => u8::MAX,
        };
        let length = (last as u16 - first as u16) as u8;
        U8WithinRangeMutator {
            start_range: first,
            len_range: length,
            search_space_complexity: size_to_cplxity(length as usize),
            rng: new_rng(),
        }
    }

    /// The value of the range at `offset` from its start.
    fn at_offset(&self, offset: u8) -> (v: u8)
        requires
            offset <= self.len(),
        ensures
            v == self.start() + offset,
    {
        proof {
            use_type_invariant(self);
        }
        (self.start_range as u16 + offset as u16) as u8
    }

    /// The greatest value of the range.
    fn last(&self) -> (v: u8)
        ensures
            v == self.end(),
    {
        proof {
            use_type_invariant(self);
        }
        self.at_offset(self.len_range)
    }

    /// Whether `value` is within the range.
    pub fn is_valid(&self, value: &u8) -> (b: bool)
        ensures
            b == (self.start() <= *value <= self.end()),
    {
        self.start_range <= *value && *value <= self.last()
    }

    /// `Some(())`, the cache of a value, when it is within the range.
    pub fn validate_value(&self, value: &u8) -> (c: Option<()>)
        ensures
            c is Some <==> self.start() <= *value <= self.end(),
    {
        if self.is_valid(value) {
            Some(())
        } else {
            None
        }
    }

    /// The generation in order starts at step 0.
    pub fn default_arbitrary_step(&self) -> (step: u64)
        ensures
            step == 0,
    {
        0
    }

    /// The mutations in order start at step 0.
    pub fn default_mutation_step(&self, value: &u8) -> (step: u64)
        ensures
            step == 0,
    {
        0
    }

    /// The complexity of choosing a value of the range.
    pub fn global_search_space_complexity(&self) -> (c: u32)
        ensures
            c == size_cplxity(self.len() as usize),
    {
        proof {
            use_type_invariant(self);
        }
        self.search_space_complexity
    }

    /// The greatest complexity of a value: its number of bits.
    pub fn max_complexity(&self) -> (c: u32)
        ensures
            c == 8,
    {
        8
    }

    /// The least complexity of a value: its number of bits.
    pub fn min_complexity(&self) -> (c: u32)
        ensures
            c == 8,
    {
        8
    }

    /// The complexity of a value: its number of bits.
    pub fn complexity(&self, value: &u8) -> (c: u32)
        ensures
            c == 8,
    {
        8
    }

    /// The value generated at `step`, when the greatest complexity `max_cplx` admits a
    /// value and the steps of the range are not exhausted; the step then moves on.
    pub fn ordered_arbitrary(&self, step: &mut u64, max_cplx: u32) -> (r: Option<(u8, u32)>)
        ensures
            max_cplx < 8 || *old(step) > self.len() ==> r is None && *final(step) == *old(step),
            !(max_cplx < 8 || *old(step) > self.len()) ==> {
                &&& r matches Some((v, c)) && v == ordered_value(self.start(), self.len(), *old(step) as int) && c == 8
                &&& r matches Some((v, c)) && self.start() <= v <= self.end()
                &&& *final(step) == next_step(*old(step))
            },
    {
        proof {
            use_type_invariant(self);
        }
        if max_cplx < 8 {
            return None;
        }
        if *step > self.len_range as u64 {
            None
        } else {
            proof {
                lemma_step_gives_value_in_range(0, self.len() as int, *step as int);
            }
            let result = binary_search_arbitrary_u8(0, self.len_range, *step);
            *step = step.wrapping_add(1);
            Some((self.at_offset(result), 8))
        }
    }

    /// A value of the range drawn at random.
    pub fn random_arbitrary(&self) -> (r: (u8, u32))
        ensures
            self.start() <= r.0 <= self.end(),
            r.1 == 8,
    {
        (random_u8_in(&self.rng, self.start_range, self.last()), 8)
    }

    /// Replaces `value` by the value generated at `step`, as `ordered_arbitrary` does,
    /// and gives back the old value.
    pub fn ordered_mutate(&self, value: &mut u8, step: &mut u64, max_cplx: u32) -> (r: Option<(u8, u32)>)
        ensures
            max_cplx < 8 || *old(step) > self.len() ==> {
                &&& r is None
                &&& *final(step) == *old(step)
                &&& *final(value) == *old(value)
            },
            !(max_cplx < 8 || *old(step) > self.len()) ==> {
                &&& r == Some((*old(value), 8u32))
                &&& *final(value) == ordered_value(self.start(), self.len(), *old(step) as int)
                &&& self.start() <= *final(value) <= self.end()
                &&& *final(step) == next_step(*old(step))
            },
    {
        proof {
            use_type_invariant(self);
        }
        if max_cplx < 8 {
            return None;
        }
        if *step > self.len_range as u64 {
            return None;
        }
        let token = *value;
        proof {
            lemma_step_gives_value_in_range(0, self.len() as int, *step as int);
        }
        let result = binary_search_arbitrary_u8(0, self.len_range, *step);
        *value = self.at_offset(result);
        *step = step.wrapping_add(1);
        Some((token, 8))
    }

    /// Replaces `value` by a value of the range drawn at random, and gives back the old
    /// value.
    pub fn random_mutate(&self, value: &mut u8) -> (r: (u8, u32))
        ensures
            r == (*old(value), 8u32),
            self.start() <= *final(value) <= self.end(),
    {
        let token = *value;
        *value = random_u8_in(&self.rng, self.start_range, self.last());
        (token, 8)
    }

    /// Puts back the value `t` that a mutation replaced.
    pub fn unmutate(&self, value: &mut u8, t: u8)
        ensures
            *final(value) == t,
    {
        *value = t;
    }
}

/// The integers of type `u16` within a range; the values are generated in the order of
/// `binary_search_arbitrary` over the range.
pub struct U16WithinRangeMutator {
    start_range: u16,
    len_range: u16,
    search_space_complexity: u32,
    rng: fastrand::Rng,
}

/// The first value admitted by a start bound of `u16` values.
pub open spec fn start_of_u16(b: Bound<u16>) -> int {
    match b {
        Bound::Included(x) => x as int,
        Bound::Excluded(x) => x + 1,
        Bound::Unbounded => u16::MIN as int,
    }
}

/// The last value admitted by an end bound of `u16` values.
pub open spec fn end_of_u16(b: Bound<u16>) -> int {
    match b {
        Bound::Included(x) => x as int,
        Bound::Excluded(x) => x - 1,
        Bound::Unbounded => u16::MAX as int,
    }
}

/// The bounds admit at least one value (an excluded bound at the edge of the type admits
/// none).
pub open spec fn admits_values_u16(start: Bound<u16>, end: Bound<u16>) -> bool {
    &&& start != Bound::Excluded(u16::MAX)
    &&& end != Bound::Excluded(u16::MIN)
    &&& start_of_u16(start) <= end_of_u16(end)
}

impl U16WithinRangeMutator {
    #[verifier::type_invariant]
    spec fn inv(&self) -> bool {
        &&& self.start_range + self.len_range <= u16::MAX
        &&& self.search_space_complexity == size_cplxity(self.len_range as usize)
    }

    /// The least value of the range.
    pub closed spec fn start(&self) -> int {
        self.start_range as int
    }

    /// The number of values of the range, minus one.
    pub closed spec fn len(&self) -> int {
        self.len_range as int
    }

    /// The greatest value of the range.
    pub open spec fn end(&self) -> int {
        self.start() + self.len()
    }

    /// The mutator of the values between the bounds `start` and `end`.
    pub fn new(start: Bound<u16>, end: Bound<u16>) -> (m: Self)
        requires
            admits_values_u16(start, end),
        ensures
            m.start() == start_of_u16(start),
            m.end() == end_of_u16(end),
    {
        let first: u16 = match start {
            Bound::Included(b) => b,
            Bound::Excluded(b) => b + 1,
            Bound::Unbounded => u16::MIN,
        };
        let last: u16 = match end {
            Bound::Included(b) => b,
            Bound::Excluded(b) => b - 1,
            Bound::Unbounded => u16::MAX,
        };
        let length = (last as u32 - first as u32) as u16;
        U16WithinRangeMutator {
            start_range: first,
            len_range: length,
            search_space_complexity: size_to_cplxity(length as usize),
            rng: new_rng(),
        }
    }

    /// The value of the range at `offset` from its start.
    fn at_offset(&self, offset: u16) -> (v: u16)
        requires
            offset <= self.len(),
        ensures
            v == self.start() + offset,
    {
        proof {
            use_type_invariant(self);
        }
        (self.start_range as u32 + offset as u32) as u16
    }

    /// The greatest value of the range.
    fn last(&self) -> (v: u16)
        ensures
            v == self.end(),
    {
        proof {
            use_type_invariant(self);
        }
        self.at_offset(self.len_range)
    }

    /// Whether `value` is within the range.
    pub fn is_valid(&self, value: &u16) -> (b: bool)
        ensures
            b == (self.start() <= *value <= self.end()),
    {
        self.start_range <= *value && *value <= self.last()
    }

    /// `Some(())`, the cache of a value, when it is within the range.
    pub fn validate_value(&self, value: &u16) -> (c: Option<()>)
        ensures
            c is Some <==> self.start() <= *value <= self.end(),
    {
        if self.is_valid(value) {
            Some(())
        } else {
            None
        }
    }

    /// The generation in order starts at step 0.
    pub fn default_arbitrary_step(&self) -> (step: u64)
        ensures
            step == 0,
    {
        0
    }

    /// The mutations in order start at step 0.
    pub fn default_mutation_step(&self, value: &u16) -> (step: u64)
        ensures
            step == 0,
    {
        0
    }

    /// The complexity of choosing a value of the range.
    pub fn global_search_space_complexity(&self) -> (c: u32)
        ensures
            c == size_cplxity(self.len() as usize),
    {
        proof {
            use_type_invariant(self);
        }
        self.search_space_complexity
    }

    /// The greatest complexity of a value: its number of bits.
    pub fn max_complexity(&self) -> (c: u32)
        ensures
            c == 16,
    {
        16
    }

    /// The least complexity of a value: its number of bits.
    pub fn min_complexity(&self) -> (c: u32)
        ensures
            c == 16,
    {
        16
    }

    /// The complexity of a value: its number of bits.
    pub fn complexity(&self, value: &u16) -> (c: u32)
        ensures
            c == 16,
    {
        16
    }

    /// The value generated at `step`, when the greatest complexity `max_cplx` admits a
    /// value and the steps of the range are not exhausted; the step then moves on.
    pub fn ordered_arbitrary(&self, step: &mut u64, max_cplx: u32) -> (r: Option<(u16, u32)>)
        ensures
            max_cplx < 16 || *old(step) > self.len() ==> r is None && *final(step) == *old(step),
            !(max_cplx < 16 || *old(step) > self.len()) ==> {
                &&& r matches Some((v, c)) && v == ordered_value(self.start(), self.len(), *old(step) as int) && c == 16
                &&& r matches Some((v, c)) && self.start() <= v <= self.end()
                &&& *final(step) == next_step(*old(step))
            },
    {
        proof {
            use_type_invariant(self);
        }
        if max_cplx < 16 {
            return None;
        }
        if *step > self.len_range as u64 {
            None
        } else {
            proof {
                lemma_step_gives_value_in_range(0, self.len() as int, *step as int);
            }
            let result = binary_search_arbitrary_u16(0, self.len_range, *step);
            *step = step.wrapping_add(1);
            Some((self.at_offset(result), 16))
        }
    }

    /// A value of the range drawn at random.
    pub fn random_arbitrary(&self) -> (r: (u16, u32))
        ensures
            self.start() <= r.0 <= self.end(),
            r.1 == 16,
    {
        (random_u16_in(&self.rng, self.start_range, self.last()), 16)
    }

    /// Replaces `value` by the value generated at `step`, as `ordered_arbitrary` does,
    /// and gives back the old value.
    pub fn ordered_mutate(&self, value: &mut u16, step: &mut u64, max_cplx: u32) -> (r: Option<(u16, u32)>)
        ensures
            max_cplx < 16 || *old(step) > self.len() ==> {
                &&& r is None
                &&& *final(step) == *old(step)
                &&& *final(value) == *old(value)
            },
            !(max_cplx < 16 || *old(step) > self.len()) ==> {
                &&& r == Some((*old(value), 16u32))
                &&& *final(value) == ordered_value(self.start(), self.len(), *old(step) as int)
                &&& self.start() <= *final(value) <= self.end()
                &&& *final(step) == next_step(*old(step))
            },
    {
        proof {
            use_type_invariant(self);
        }
        if max_cplx < 16 {
            return None;
        }
        if *step > self.len_range as u64 {
            return None;
        }
        let token = *value;
        proof {
            lemma_step_gives_value_in_range(0, self.len() as int, *step as int);
        }
        let result = binary_search_arbitrary_u16(0, self.len_range, *step);
        *value = self.at_offset(result);
        *step = step.wrapping_add(1);
        Some((token, 16))
    }

    /// Replaces `value` by a value of the range drawn at random, and gives back the old
    /// value.
    pub fn random_mutate(&self, value: &mut u16) -> (r: (u16, u32))
        ensures
            r == (*old(value), 16u32),
            self.start() <= *final(value) <= self.end(),
    {
        let token = *value;
        *value = random_u16_in(&self.rng, self.start_range, self.last());
        (token, 16)
    }

    /// Puts back the value `t` that a mutation replaced.
    pub fn unmutate(&self, value: &mut u16, t: u16)
        ensures
            *final(value) == t,
    {
        *value = t;
    }
}

/// The integers of type `u32` within a range; the values are generated in the order of
/// `binary_search_arbitrary` over the range.
pub struct U32WithinRangeMutator {
    start_range: u32,
    len_range: u32,
    search_space_complexity: u32,
    rng: fastrand::Rng,
}

/// The first value admitted by a start bound of `u32` values.
pub open spec fn start_of_u32(b: Bound<u32>) -> int {
    match b {
        Bound::Included(x) => x as int,
        Bound::Excluded(x) => x + 1,
        Bound::Unbounded => u32::MIN as int,
    }
}

/// The last value admitted by an end bound of `u32` values.
pub open spec fn end_of_u32(b: Bound<u32>) -> int {
    match b {
        Bound::Included(x) => x as int,
        Bound::Excluded(x) => x - 1,
        Bound::Unbounded => u32::MAX as int,
    }
}

/// The bounds admit at least one value (an excluded bound at the edge of the type admits
/// none).
pub open spec fn admits_values_u32(start: Bound<u32>, end: Bound<u32>) -> bool {
    &&& start != Bound::Excluded(u32::MAX)
    &&& end != Bound::Excluded(u32::MIN)
    &&& start_of_u32(start) <= end_of_u32(end)
}

impl U32WithinRangeMutator {
    #[verifier::type_invariant]
    spec fn inv(&self) -> bool {
        &&& self.start_range + self.len_range <= u32::MAX
        &&& self.search_space_complexity == size_cplxity(self.len_range as usize)
    }

    /// The least value of the range.
    pub closed spec fn start(&self) -> int {
        self.start_range as int
    }

    /// The number of values of the range, minus one.
    pub closed spec fn len(&self) -> int {
        self.len_range as int
    }

    /// The greatest value of the range.
    pub open spec fn end(&self) -> int {
        self.start() + self.len()
    }

    /// The mutator of the values between the bounds `start` and `end`.
    pub fn new(start: Bound<u32>, end: Bound<u32>) -> (m: Self)
        requires
            admits_values_u32(start, end),
        ensures
            m.start() == start_of_u32(start),
            m.end() == end_of_u32(end),
    {
        let first: u32 = match start {
            Bound::Included(b) => b,
            Bound::Excluded(b) => b + 1,
            Bound::Unbounded => u32::MIN,
        };
        let last: u32 = match end {
            Bound::Included(b) => b,
            Bound::Excluded(b) => b - 1,
            Bound::Unbounded => u32::MAX,
        };
        let length = (last as u64 - first as u64) as u32;
        U32WithinRangeMutator {
            start_range: first,
            len_range: length,
            search_space_complexity: size_to_cplxity(length as usize),
            rng: new_rng(),
        }
    }

    /// The value of the range at `offset` from its start.
    fn at_offset(&self, offset: u32) -> (v: u32)
        requires
            offset <= self.len(),
        ensures
            v == self.start() + offset,
    {
        proof {
            use_type_invariant(self);
        }
        (self.start_range as u64 + offset as u64) as u32
    }

    /// The greatest value of the range.
    fn last(&self) -> (v: u32)
        ensures
            v == self.end(),
    {
        proof {
            use_type_invariant(self);
        }
        self.at_offset(self.len_range)
    }

    /// Whether `value` is within the range.
    pub fn is_valid(&self, value: &u32) -> (b: bool)
        ensures
            b == (self.start() <= *value <= self.end()),
    {
        self.start_range <= *value && *value <= self.last()
    }

    /// `Some(())`, the cache of a value, when it is within the range.
    pub fn validate_value(&self, value: &u32) -> (c: Option<()>)
        ensures
            c is Some <==> self.start() <= *value <= self.end(),
    {
        if self.is_valid(value) {
            Some(())
        } else {
            None
        }
    }

    /// The generation in order starts at step 0.
    pub fn default_arbitrary_step(&self) -> (step: u64)
        ensures
            step == 0,
    {
        0
    }

    /// The mutations in order start at step 0.
    pub fn default_mutation_step(&self, value: &u32) -> (step: u64)
        ensures
            step == 0,
    {
        0
    }

    /// The complexity of choosing a value of the range.
    pub fn global_search_space_complexity(&self) -> (c: u32)
        ensures
            c == size_cplxity(self.len() as usize),
    {
        proof {
            use_type_invariant(self);
        }
        self.search_space_complexity
    }

    /// The greatest complexity of a value: its number of bits.
    pub fn max_complexity(&self) -> (c: u32)
        ensures
            c == 32,
    {
        32
    }

    /// The least complexity of a value: its number of bits.
    pub fn min_complexity(&self) -> (c: u32)
        ensures
            c == 32,
    {
        32
    }

    /// The complexity of a value: its number of bits.
    pub fn complexity(&self, value: &u32) -> (c: u32)
        ensures
            c == 32,
    {
        32
    }

    /// The value generated at `step`, when the greatest complexity `max_cplx` admits a
    /// value and the steps of the range are not exhausted; the step then moves on.
    pub fn ordered_arbitrary(&self, step: &mut u64, max_cplx: u32) -> (r: Option<(u32, u32)>)
        ensures
            max_cplx < 32 || *old(step) > self.len() ==> r is None && *final(step) == *old(step),
            !(max_cplx < 32 || *old(step) > self.len()) ==> {
                &&& r matches Some((v, c)) && v == ordered_value(self.start(), self.len(), *old(step) as int) && c == 32
                &&& r matches Some((v, c)) && self.start() <= v <= self.end()
                &&& *final(step) == next_step(*old(step))
            },
    {
        proof {
            use_type_invariant(self);
        }
        if max_cplx < 32 {
            return None;
        }
        if *step > self.len_range as u64 {
            None
        } else {
            proof {
                lemma_step_gives_value_in_range(0, self.len() as int, *step as int);
            }
            let result = binary_search_arbitrary_u32(0, self.len_range, *step);
            *step = step.wrapping_add(1);
            Some((self.at_offset(result), 32))
        }
    }

    /// A value of the range drawn at random.
    pub fn random_arbitrary(&self) -> (r: (u32, u32))
        ensures
            self.start() <= r.0 <= self.end(),
            r.1 == 32,
    {
        (random_u32_in(&self.rng, self.start_range, self.last()), 32)
    }

    /// Replaces `value` by the value generated at `step`, as `ordered_arbitrary` does,
    /// and gives back the old value.
    pub fn ordered_mutate(&self, value: &mut u32, step: &mut u64, max_cplx: u32) -> (r: Option<(u32, u32)>)
        ensures
            max_cplx < 32 || *old(step) > self.len() ==> {
                &&& r is None
                &&& *final(step) == *old(step)
                &&& *final(value) == *old(value)
            },
            !(max_cplx < 32 || *old(step) > self.len()) ==> {
                &&& r == Some((*old(value), 32u32))
                &&& *final(value) == ordered_value(self.start(), self.len(), *old(step) as int)
                &&& self.start() <= *final(value) <= self.end()
                &&& *final(step) == next_step(*old(step))
            },
    {
        proof {
            use_type_invariant(self);
        }
        if max_cplx < 32 {
            return None;
        }
        if *step > self.len_range as u64 {
            return None;
        }
        let token = *value;
        proof {
            lemma_step_gives_value_in_range(0, self.len() as int, *step as int);
        }
        let result = binary_search_arbitrary_u32(0, self.len_range, *step);
        *value = self.at_offset(result);
        *step = step.wrapping_add(1);
        Some((token, 32))
    }

    /// Replaces `value` by a value of the range drawn at random, and gives back the old
    /// value.
    pub fn random_mutate(&self, value: &mut u32) -> (r: (u32, u32))
        ensures
            r == (*old(value), 32u32),
            self.start() <= *final(value) <= self.end(),
    {
        let token = *value;
        *value = random_u32_in(&self.rng, self.start_range, self.last());
        (token, 32)
    }

    /// Puts back the value `t` that a mutation replaced.
    pub fn unmutate(&self, value: &mut u32, t: u32)
        ensures
            *final(value) == t,
    {
        *value = t;
    }
}

/// The integers of type `u64` within a range; the values are generated in the order of
/// `binary_search_arbitrary` over the range.
pub struct U64WithinRangeMutator {
    start_range: u64,
    len_range: u64,
    search_space_complexity: u32,
    rng: fastrand::Rng,
}

/// The first value admitted by a start bound of `u64` values.
pub open spec fn start_of_u64(b: Bound<u64>) -> int {
    match b {
        Bound::Included(x) => x as int,
        Bound::Excluded(x) => x + 1,
        Bound::Unbounded => u64::MIN as int,
    }
}

/// The last value admitted by an end bound of `u64` values.
pub open spec fn end_of_u64(b: Bound<u64>) -> int {
    match b {
        Bound::Included(x) => x as int,
        Bound::Excluded(x) => x - 1,
        Bound::Unbounded => u64::MAX as int,
    }
}

/// The bounds admit at least one value (an excluded bound at the edge of the type admits
/// none).
pub open spec fn admits_values_u64(start: Bound<u64>, end: Bound<u64>) -> bool {
    &&& start != Bound::Excluded(u64::MAX)
    &&& end != Bound::Excluded(u64::MIN)
    &&& start_of_u64(start) <= end_of_u64(end)
}

impl U64WithinRangeMutator {
    #[verifier::type_invariant]
    spec fn inv(&self) -> bool {
        &&& self.start_range + self.len_range <= u64::MAX
        &&& self.search_space_complexity == size_cplxity(self.len_range as usize)
    }

    /// The least value of the range.
    pub closed spec fn start(&self) -> int {
        self.start_range as int
    }

    /// The number of values of the range, minus one.
    pub closed spec fn len(&self) -> int {
        self.len_range as int
    }

    /// The greatest value of the range.
    pub open spec fn end(&self) -> int {
        self.start() + self.len()
    }

    /// The mutator of the values between the bounds `start` and `end`.
    pub fn new(start: Bound<u64>, end: Bound<u64>) -> (m: Self)
        requires
            admits_values_u64(start, end),
        ensures
            m.start() == start_of_u64(start),
            m.end() == end_of_u64(end),
    {
        let first: u64 = match start {
            Bound::Included(b) => b,
            Bound::Excluded(b) => b + 1,
            Bound::Unbounded => u64::MIN,
        };
        let last: u64 = match end {
            Bound::Included(b) => b,
            Bound::Excluded(b) => b - 1,
            Bound::Unbounded => u64::MAX,
        };
        let length = (last as u128 - first as u128) as u64;
        U64WithinRangeMutator {
            start_range: first,
            len_range: length,
            search_space_complexity: size_to_cplxity(length as usize),
            rng: new_rng(),
        }
    }

    /// The value of the range at `offset` from its start.
    fn at_offset(&self, offset: u64) -> (v: u64)
        requires
            offset <= self.len(),
        ensures
            v == self.start() + offset,
    {
        proof {
            use_type_invariant(self);
        }
        (self.start_range as u128 + offset as u128) as u64
    }

    /// The greatest value of the range.
    fn last(&self) -> (v: u64)
        ensures
            v == self.end(),
    {
        proof {
            use_type_invariant(self);
        }
        self.at_offset(self.len_range)
    }

    /// Whether `value` is within the range.
    pub fn is_valid(&self, value: &u64) -> (b: bool)
        ensures
            b == (self.start() <= *value <= self.end()),
    {
        self.start_range <= *value && *value <= self.last()
    }

    /// `Some(())`, the cache of a value, when it is within the range.
    pub fn validate_value(&self, value: &u64) -> (c: Option<()>)
        ensures
            c is Some <==> self.start() <= *value <= self.end(),
    {
        if self.is_valid(value) {
            Some(())
        } else {
            None
        }
    }

    /// The generation in order starts at step 0.
    pub fn default_arbitrary_step(&self) -> (step: u64)
        ensures
            step == 0,
    {
        0
    }

    /// The mutations in order start at step 0.
    pub fn default_mutation_step(&self, value: &u64) -> (step: u64)
        ensures
            step == 0,
    {
        0
    }

    /// The complexity of choosing a value of the range.
    pub fn global_search_space_complexity(&self) -> (c: u32)
        ensures
            c == size_cplxity(self.len() as usize),
    {
        proof {
            use_type_invariant(self);
        }
        self.search_space_complexity
    }

    /// The greatest complexity of a value: its number of bits.
    pub fn max_complexity(&self) -> (c: u32)
        ensures
            c == 64,
    {
        64
    }

    /// The least complexity of a value: its number of bits.
    pub fn min_complexity(&self) -> (c: u32)
        ensures
            c == 64,
    {
        64
    }

    /// The complexity of a value: its number of bits.
    pub fn complexity(&self, value: &u64) -> (c: u32)
        ensures
            c == 64,
    {
        64
    }

    /// The value generated at `step`, when the greatest complexity `max_cplx` admits a
    /// value and the steps of the range are not exhausted; the step then moves on.
    pub fn ordered_arbitrary(&self, step: &mut u64, max_cplx: u32) -> (r: Option<(u64, u32)>)
        ensures
            max_cplx < 64 || *old(step) > self.len() ==> r is None && *final(step) == *old(step),
            !(max_cplx < 64 || *old(step) > self.len()) ==> {
                &&& r matches Some((v, c)) && v == ordered_value(self.start(), self.len(), *old(step) as int) && c == 64
                &&& r matches Some((v, c)) && self.start() <= v <= self.end()
                &&& *final(step) == next_step(*old(step))
            },
    {
        proof {
            use_type_invariant(self);
        }
        if max_cplx < 64 {
            return None;
        }
        if *step > self.len_range as u64 {
            None
        } else {
            proof {
                lemma_step_gives_value_in_range(0, self.len() as int, *step as int);
            }
            let result = binary_search_arbitrary_u64(0, self.len_range, *step);
            *step = step.wrapping_add(1);
            Some((self.at_offset(result), 64))
        }
    }

    /// A value of the range drawn at random.
    pub fn random_arbitrary(&self) -> (r: (u64, u32))
        ensures
            self.start() <= r.0 <= self.end(),
            r.1 == 64,
    {
        (random_u64_in(&self.rng, self.start_range, self.last()), 64)
    }

    /// Replaces `value` by the value generated at `step`, as `ordered_arbitrary` does,
    /// and gives back the old value.
    pub fn ordered_mutate(&self, value: &mut u64, step: &mut u64, max_cplx: u32) -> (r: Option<(u64, u32)>)
        ensures
            max_cplx < 64 || *old(step) > self.len() ==> {
                &&& r is None
                &&& *final(step) == *old(step)
                &&& *final(value) == *old(value)
            },
            !(max_cplx < 64 || *old(step) > self.len()) ==> {
                &&& r == Some((*old(value), 64u32))
                &&& *final(value) == ordered_value(self.start(), self.len(), *old(step) as int)
                &&& self.start() <= *final(value) <= self.end()
                &&& *final(step) == next_step(*old(step))
            },
    {
        proof {
            use_type_invariant(self);
        }
        if max_cplx < 64 {
            return None;
        }
        if *step > self.len_range as u64 {
            return None;
        }
        let token = *value;
        proof {
            lemma_step_gives_value_in_range(0, self.len() as int, *step as int);
        }
        let result = binary_search_arbitrary_u64(0, self.len_range, *step);
        *value = self.at_offset(result);
        *step = step.wrapping_add(1);
        Some((token, 64))
    }

    /// Replaces `value` by a value of the range drawn at random, and gives back the old
    /// value.
    pub fn random_mutate(&self, value: &mut u64) -> (r: (u64, u32))
        ensures
            r == (*old(value), 64u32),
            self.start() <= *final(value) <= self.end(),
    {
        let token = *value;
        *value = random_u64_in(&self.rng, self.start_range, self.last());
        (token, 64)
    }

    /// Puts back the value `t` that a mutation replaced.
    pub fn unmutate(&self, value: &mut u64, t: u64)
        ensures
            *final(value) == t,
    {
        *value = t;
    }
}

/// The integers of type `i8` within a range; the values are generated in the order of
/// `binary_search_arbitrary` over the range.
pub struct I8WithinRangeMutator {
    start_range: i8,
    len_range: u8,
    search_space_complexity: u32,
    rng: fastrand::Rng,
}

/// The first value admitted by a start bound of `i8` values.
pub open spec fn start_of_i8(b: Bound<i8>) -> int {
    match b {
        Bound::Included(x) => x as int,
        Bound::Excluded(x) => x + 1,
        Bound::Unbounded => i8::MIN as int,
    }
}

/// The last value admitted by an end bound of `i8` values.
pub open spec fn end_of_i8(b: Bound<i8>) -> int {
    match b {
        Bound::Included(x) => x as int,
        Bound::Excluded(x) => x - 1,
        Bound::Unbounded => i8::MAX as int,
    }
}

/// The bounds admit at least one value (an excluded bound at the edge of the type admits
/// none).
pub open spec fn admits_values_i8(start: Bound<i8>, end: Bound<i8>) -> bool {
    &&& start != Bound::Excluded(i8::MAX)
    &&& end != Bound::Excluded(i8::MIN)
    &&& start_of_i8(start) <= end_of_i8(end)
}

impl I8WithinRangeMutator {
    #[verifier::type_invariant]
    spec fn inv(&self) -> bool {
        &&& self.start_range + self.len_range <= i8::MAX
        &&& self.search_space_complexity == size_cplxity(self.len_range as usize)
    }

    /// The least value of the range.
    pub closed spec fn start(&self) -> int {
        self.start_range as int
    }

    /// The number of values of the range, minus one.
    pub closed spec fn len(&self) -> int {
        self.len_range as int
    }

    /// The greatest value of the range.
    pub open spec fn end(&self) -> int {
        self.start() + self.len()
    }

    /// The mutator of the values between the bounds `start` and `end`.
    pub fn new(start: Bound<i8>, end: Bound<i8>) -> (m: Self)
        requires
            admits_values_i8(start, end),
        ensures
            m.start() == start_of_i8(start),
            m.end() == end_of_i8(end),
    {
        let first: i8 = match start {
            Bound::Included(b) => b,
            Bound::Excluded(b) => b + 1,
            Bound::Unbounded => i8::MIN,
        };
        let last: i8 = match end {
            Bound::Included(b) => b,
            Bound::Excluded(b) => b - 1,
            Bound::Unbounded => i8::MAX,
        };
        let length = (last as i16 - first as i16) as u8;
        I8WithinRangeMutator {
            start_range: first,
            len_range: length,
            search_space_complexity: size_to_cplxity(length as usize),
            rng: new_rng(),
        }
    }

    /// The value of the range at `offset` from its start.
    fn at_offset(&self, offset: u8) -> (v: i8)
        requires
            offset <= self.len(),
        ensures
            v == self.start() + offset,
    {
        proof {
            use_type_invariant(self);
        }
        (self.start_range as i16 + offset as i16) as i8
    }

    /// The greatest value of the range.
    fn last(&self) -> (v: i8)
        ensures
            v == self.end(),
    {
        proof {
            use_type_invariant(self);
        }
        self.at_offset(self.len_range)
    }

    /// Whether `value` is within the range.
    pub fn is_valid(&self, value: &i8) -> (b: bool)
        ensures
            b == (self.start() <= *value <= self.end()),
    {
        self.start_range <= *value && *value <= self.last()
    }

    /// `Some(())`, the cache of a value, when it is within the range.
    pub fn validate_value(&self, value: &i8) -> (c: Option<()>)
        ensures
            c is Some <==> self.start() <= *value <= self.end(),
    {
        if self.is_valid(value) {
            Some(())
        } else {
            None
        }
    }

    /// The generation in order starts at step 0.
    pub fn default_arbitrary_step(&self) -> (step: u64)
        ensures
            step == 0,
    {
        0
    }

    /// The mutations in order start at step 0.
    pub fn default_mutation_step(&self, value: &i8) -> (step: u64)
        ensures
            step == 0,
    {
        0
    }

    /// The complexity of choosing a value of the range.
    pub fn global_search_space_complexity(&self) -> (c: u32)
        ensures
            c == size_cplxity(self.len() as usize),
    {
        proof {
            use_type_invariant(self);
        }
        self.search_space_complexity
    }

    /// The greatest complexity of a value: its number of bits.
    pub fn max_complexity(&self) -> (c: u32)
        ensures
            c == 8,
    {
        8
    }

    /// The least complexity of a value: its number of bits.
    pub fn min_complexity(&self) -> (c: u32)
        ensures
            c == 8,
    {
        8
    }

    /// The complexity of a value: its number of bits.
    pub fn complexity(&self, value: &i8) -> (c: u32)
        ensures
            c == 8,
    {
        8
    }

    /// The value generated at `step`, when the greatest complexity `max_cplx` admits a
    /// value and the steps of the range are not exhausted; the step then moves on.
    pub fn ordered_arbitrary(&self, step: &mut u64, max_cplx: u32) -> (r: Option<(i8, u32)>)
        ensures
            max_cplx < 8 || *old(step) > self.len() ==> r is None && *final(step) == *old(step),
            !(max_cplx < 8 || *old(step) > self.len()) ==> {
                &&& r matches Some((v, c)) && v == ordered_value(self.start(), self.len(), *old(step) as int) && c == 8
                &&& r matches Some((v, c)) && self.start() <= v <= self.end()
                &&& *final(step) == next_step(*old(step))
            },
    {
        proof {
            use_type_invariant(self);
        }
        if max_cplx < 8 {
            return None;
        }
        if *step > self.len_range as u64 {
            None
        } else {
            proof {
                lemma_step_gives_value_in_range(0, self.len() as int, *step as int);
            }
            let result = binary_search_arbitrary_u8(0, self.len_range, *step);
            *step = step.wrapping_add(1);
            Some((self.at_offset(result), 8))
        }
    }

    /// A value of the range drawn at random.
    pub fn random_arbitrary(&self) -> (r: (i8, u32))
        ensures
            self.start() <= r.0 <= self.end(),
            r.1 == 8,
    {
        (random_i8_in(&self.rng, self.start_range, self.last()), 8)
    }

    /// Replaces `value` by the value generated at `step`, as `ordered_arbitrary` does,
    /// and gives back the old value.
    pub fn ordered_mutate(&self, value: &mut i8, step: &mut u64, max_cplx: u32) -> (r: Option<(i8, u32)>)
        ensures
            max_cplx < 8 || *old(step) > self.len() ==> {
                &&& r is None
                &&& *final(step) == *old(step)
                &&& *final(value) == *old(value)
            },
            !(max_cplx < 8 || *old(step) > self.len()) ==> {
                &&& r == Some((*old(value), 8u32))
                &&& *final(value) == ordered_value(self.start(), self.len(), *old(step) as int)
                &&& self.start() <= *final(value) <= self.end()
                &&& *final(step) == next_step(*old(step))
            },
    {
        proof {
            use_type_invariant(self);
        }
        if max_cplx < 8 {
            return None;
        }
        if *step > self.len_range as u64 {
            return None;
        }
        let token = *value;
        proof {
            lemma_step_gives_value_in_range(0, self.len() as int, *step as int);
        }
        let result = binary_search_arbitrary_u8(0, self.len_range, *step);
        *value = self.at_offset(result);
        *step = step.wrapping_add(1);
        Some((token, 8))
    }

    /// Replaces `value` by a value of the range drawn at random, and gives back the old
    /// value.
    pub fn random_mutate(&self, value: &mut i8) -> (r: (i8, u32))
        ensures
            r == (*old(value), 8u32),
            self.start() <= *final(value) <= self.end(),
    {
        let token = *value;
        *value = random_i8_in(&self.rng, self.start_range, self.last());
        (token, 8)
    }

    /// Puts back the value `t` that a mutation replaced.
    pub fn unmutate(&self, value: &mut i8, t: i8)
        ensures
            *final(value) == t,
    {
        *value = t;
    }
}

/// The integers of type `i16` within a range; the values are generated in the order of
/// `binary_search_arbitrary` over the range.
pub struct I16WithinRangeMutator {
    start_range: i16,
    len_range: u16,
    search_space_complexity: u32,
    rng: fastrand::Rng,
}

/// The first value admitted by a start bound of `i16` values.
pub open spec fn start_of_i16(b: Bound<i16>) -> int {
    match b {
        Bound::Included(x) => x as int,
        Bound::Excluded(x) => x + 1,
        Bound::Unbounded => i16::MIN as int,
    }
}

/// The last value admitted by an end bound of `i16` values.
pub open spec fn end_of_i16(b: Bound<i16>) -> int {
    match b {
        Bound::Included(x) => x as int,
        Bound::Excluded(x) => x - 1,
        Bound::Unbounded => i16::MAX as int,
    }
}

/// The bounds admit at least one value (an excluded bound at the edge of the type admits
/// none).
pub open spec fn admits_values_i16(start: Bound<i16>, end: Bound<i16>) -> bool {
    &&& start != Bound::Excluded(i16::MAX)
    &&& end != Bound::Excluded(i16::MIN)
    &&& start_of_i16(start) <= end_of_i16(end)
}

impl I16WithinRangeMutator {
    #[verifier::type_invariant]
    spec fn inv(&self) -> bool {
        &&& self.start_range + self.len_range <= i16::MAX
        &&& self.search_space_complexity == size_cplxity(self.len_range as usize)
    }

    /// The least value of the range.
    pub closed spec fn start(&self) -> int {
        self.start_range as int
    }

    /// The number of values of the range, minus one.
    pub closed spec fn len(&self) -> int {
        self.len_range as int
    }

    /// The greatest value of the range.
    pub open spec fn end(&self) -> int {
        self.start() + self.len()
    }

    /// The mutator of the values between the bounds `start` and `end`.
    pub fn new(start: Bound<i16>, end: Bound<i16>) -> (m: Self)
        requires
            admits_values_i16(start, end),
        ensures
            m.start() == start_of_i16(start),
            m.end() == end_of_i16(end),
    {
        let first: i16 = match start {
            Bound::Included(b) => b,
            Bound::Excluded(b) => b + 1,
            Bound::Unbounded => i16::MIN,
        };
        let last: i16 = match end {
            Bound::Included(b) => b,
            Bound::Excluded(b) => b - 1,
            Bound::Unbounded => i16::MAX,
        };
        let length = (last as i32 - first as i32) as u16;
        I16WithinRangeMutator {
            start_range: first,
            len_range: length,
            search_space_complexity: size_to_cplxity(length as usize),
            rng: new_rng(),
        }
    }

    /// The value of the range at `offset` from its start.
    fn at_offset(&self, offset: u16) -> (v: i16)
        requires
            offset <= self.len(),
        ensures
            v == self.start() + offset,
    {
        proof {
            use_type_invariant(self);
        }
        (self.start_range as i32 + offset as i32) as i16
    }

    /// The greatest value of the range.
    fn last(&self) -> (v: i16)
        ensures
            v == self.end(),
    {
        proof {
            use_type_invariant(self);
        }
        self.at_offset(self.len_range)
    }

    /// Whether `value` is within the range.
    pub fn is_valid(&self, value: &i16) -> (b: bool)
        ensures
            b == (self.start() <= *value <= self.end()),
    {
        self.start_range <= *value && *value <= self.last()
    }

    /// `Some(())`, the cache of a value, when it is within the range.
    pub fn validate_value(&self, value: &i16) -> (c: Option<()>)
        ensures
            c is Some <==> self.start() <= *value <= self.end(),
    {
        if self.is_valid(value) {
            Some(())
        } else {
            None
        }
    }

    /// The generation in order starts at step 0.
    pub fn default_arbitrary_step(&self) -> (step: u64)
        ensures
            step == 0,
    {
        0
    }

    /// The mutations in order start at step 0.
    pub fn default_mutation_step(&self, value: &i16) -> (step: u64)
        ensures
            step == 0,
    {
        0
    }

    /// The complexity of choosing a value of the range.
    pub fn global_search_space_complexity(&self) -> (c: u32)
        ensures
            c == size_cplxity(self.len() as usize),
    {
        proof {
            use_type_invariant(self);
        }
        self.search_space_complexity
    }

    /// The greatest complexity of a value: its number of bits.
    pub fn max_complexity(&self) -> (c: u32)
        ensures
            c == 16,
    {
        16
    }

    /// The least complexity of a value: its number of bits.
    pub fn min_complexity(&self) -> (c: u32)
        ensures
            c == 16,
    {
        16
    }

    /// The complexity of a value: its number of bits.
    pub fn complexity(&self, value: &i16) -> (c: u32)
        ensures
            c == 16,
    {
        16
    }

    /// The value generated at `step`, when the greatest complexity `max_cplx` admits a
    /// value and the steps of the range are not exhausted; the step then moves on.
    pub fn ordered_arbitrary(&self, step: &mut u64, max_cplx: u32) -> (r: Option<(i16, u32)>)
        ensures
            max_cplx < 16 || *old(step) > self.len() ==> r is None && *final(step) == *old(step),
            !(max_cplx < 16 || *old(step) > self.len()) ==> {
                &&& r matches Some((v, c)) && v == ordered_value(self.start(), self.len(), *old(step) as int) && c == 16
                &&& r matches Some((v, c)) && self.start() <= v <= self.end()
                &&& *final(step) == next_step(*old(step))
            },
    {
        proof {
            use_type_invariant(self);
        }
        if max_cplx < 16 {
            return None;
        }
        if *step > self.len_range as u64 {
            None
        } else {
            proof {
                lemma_step_gives_value_in_range(0, self.len() as int, *step as int);
            }
            let result = binary_search_arbitrary_u16(0, self.len_range, *step);
            *step = step.wrapping_add(1);
            Some((self.at_offset(result), 16))
        }
    }

    /// A value of the range drawn at random.
    pub fn random_arbitrary(&self) -> (r: (i16, u32))
        ensures
            self.start() <= r.0 <= self.end(),
            r.1 == 16,
    {
        (random_i16_in(&self.rng, self.start_range, self.last()), 16)
    }

    /// Replaces `value` by the value generated at `step`, as `ordered_arbitrary` does,
    /// and gives back the old value.
    pub fn ordered_mutate(&self, value: &mut i16, step: &mut u64, max_cplx: u32) -> (r: Option<(i16, u32)>)
        ensures
            max_cplx < 16 || *old(step) > self.len() ==> {
                &&& r is None
                &&& *final(step) == *old(step)
                &&& *final(value) == *old(value)
            },
            !(max_cplx < 16 || *old(step) > self.len()) ==> {
                &&& r == Some((*old(value), 16u32))
                &&& *final(value) == ordered_value(self.start(), self.len(), *old(step) as int)
                &&& self.start() <= *final(value) <= self.end()
                &&& *final(step) == next_step(*old(step))
            },
    {
        proof {
            use_type_invariant(self);
        }
        if max_cplx < 16 {
            return None;
        }
        if *step > self.len_range as u64 {
            return None;
        }
        let token = *value;
        proof {
            lemma_step_gives_value_in_range(0, self.len() as int, *step as int);
        }
        let result = binary_search_arbitrary_u16(0, self.len_range, *step);
        *value = self.at_offset(result);
        *step = step.wrapping_add(1);
        Some((token, 16))
    }

    /// Replaces `value` by a value of the range drawn at random, and gives back the old
    /// value.
    pub fn random_mutate(&self, value: &mut i16) -> (r: (i16, u32))
        ensures
            r == (*old(value), 16u32),
            self.start() <= *final(value) <= self.end(),
    {
        let token = *value;
        *value = random_i16_in(&self.rng, self.start_range, self.last());
        (token, 16)
    }

    /// Puts back the value `t` that a mutation replaced.
    pub fn unmutate(&self, value: &mut i16, t: i16)
        ensures
            *final(value) == t,
    {
        *value = t;
    }
}

/// The integers of type `i32` within a range; the values are generated in the order of
/// `binary_search_arbitrary` over the range.
pub struct I32WithinRangeMutator {
    start_range: i32,
    len_range: u32,
    search_space_complexity: u32,
    rng: fastrand::Rng,
}

/// The first value admitted by a start bound of `i32` values.
pub open spec fn start_of_i32(b: Bound<i32>) -> int {
    match b {
        Bound::Included(x) => x as int,
        Bound::Excluded(x) => x + 1,
        Bound::Unbounded => i32::MIN as int,
    }
}

/// The last value admitted by an end bound of `i32` values.
pub open spec fn end_of_i32(b: Bound<i32>) -> int {
    match b {
        Bound::Included(x) => x as int,
        Bound::Excluded(x) => x - 1,
        Bound::Unbounded => i32::MAX as int,
    }
}

/// The bounds admit at least one value (an excluded bound at the edge of the type admits
/// none).
pub open spec fn admits_values_i32(start: Bound<i32>, end: Bound<i32>) -> bool {
    &&& start != Bound::Excluded(i32::MAX)
    &&& end != Bound::Excluded(i32::MIN)
    &&& start_of_i32(start) <= end_of_i32(end)
}

impl I32WithinRangeMutator {
    #[verifier::type_invariant]
    spec fn inv(&self) -> bool {
        &&& self.start_range + self.len_range <= i32::MAX
        &&& self.search_space_complexity == size_cplxity(self.len_range as usize)
    }

    /// The least value of the range.
    pub closed spec fn start(&self) -> int {
        self.start_range as int
    }

    /// The number of values of the range, minus one.
    pub closed spec fn len(&self) -> int {
        self.len_range as int
    }

    /// The greatest value of the range.
    pub open spec fn end(&self) -> int {
        self.start() + self.len()
    }

    /// The mutator of the values between the bounds `start` and `end`.
    pub fn new(start: Bound<i32>, end: Bound<i32>) -> (m: Self)
        requires
            admits_values_i32(start, end),
        ensures
            m.start() == start_of_i32(start),
            m.end() == end_of_i32(end),
    {
        let first: i32 = match start {
            Bound::Included(b) => b,
            Bound::Excluded(b) => b + 1,
            Bound::Unbounded => i32::MIN,
        };
        let last: i32 = match end {
            Bound::Included(b) => b,
            Bound::Excluded(b) => b - 1,
            Bound::Unbounded => i32::MAX,
        };
        let length = (last as i64 - first as i64) as u32;
        I32WithinRangeMutator {
            start_range: first,
            len_range: length,
            search_space_complexity: size_to_cplxity(length as usize),
            rng: new_rng(),
        }
    }

    /// The value of the range at `offset` from its start.
    fn at_offset(&self, offset: u32) -> (v: i32)
        requires
            offset <= self.len(),
        ensures
            v == self.start() + offset,
    {
        proof {
            use_type_invariant(self);
        }
        (self.start_range as i64 + offset as i64) as i32
    }

    /// The greatest value of the range.
    fn last(&self) -> (v: i32)
        ensures
            v == self.end(),
    {
        proof {
            use_type_invariant(self);
        }
        self.at_offset(self.len_range)
    }

    /// Whether `value` is within the range.
    pub fn is_valid(&self, value: &i32) -> (b: bool)
        ensures
            b == (self.start() <= *value <= self.end()),
    {
        self.start_range <= *value && *value <= self.last()
    }

    /// `Some(())`, the cache of a value, when it is within the range.
    pub fn validate_value(&self, value: &i32) -> (c: Option<()>)
        ensures
            c is Some <==> self.start() <= *value <= self.end(),
    {
        if self.is_valid(value) {
            Some(())
        } else {
            None
        }
    }

    /// The generation in order starts at step 0.
    pub fn default_arbitrary_step(&self) -> (step: u64)
        ensures
            step == 0,
    {
        0
    }

    /// The mutations in order start at step 0.
    pub fn default_mutation_step(&self, value: &i32) -> (step: u64)
        ensures
            step == 0,
    {
        0
    }

    /// The complexity of choosing a value of the range.
    pub fn global_search_space_complexity(&self) -> (c: u32)
        ensures
            c == size_cplxity(self.len() as usize),
    {
        proof {
            use_type_invariant(self);
        }
        self.search_space_complexity
    }

    /// The greatest complexity of a value: its number of bits.
    pub fn max_complexity(&self) -> (c: u32)
        ensures
            c == 32,
    {
        32
    }

    /// The least complexity of a value: its number of bits.
    pub fn min_complexity(&self) -> (c: u32)
        ensures
            c == 32,
    {
        32
    }

    /// The complexity of a value: its number of bits.
    pub fn complexity(&self, value: &i32) -> (c: u32)
        ensures
            c == 32,
    {
        32
    }

    /// The value generated at `step`, when the greatest complexity `max_cplx` admits a
    /// value and the steps of the range are not exhausted; the step then moves on.
    pub fn ordered_arbitrary(&self, step: &mut u64, max_cplx: u32) -> (r: Option<(i32, u32)>)
        ensures
            max_cplx < 32 || *old(step) > self.len() ==> r is None && *final(step) == *old(step),
            !(max_cplx < 32 || *old(step) > self.len()) ==> {
                &&& r matches Some((v, c)) && v == ordered_value(self.start(), self.len(), *old(step) as int) && c == 32
                &&& r matches Some((v, c)) && self.start() <= v <= self.end()
                &&& *final(step) == next_step(*old(step))
            },
    {
        proof {
            use_type_invariant(self);
        }
        if max_cplx < 32 {
            return None;
        }
        if *step > self.len_range as u64 {
            None
        } else {
            proof {
                lemma_step_gives_value_in_range(0, self.len() as int, *step as int);
            }
            let result = binary_search_arbitrary_u32(0, self.len_range, *step);
            *step = step.wrapping_add(1);
            Some((self.at_offset(result), 32))
        }
    }

    /// A value of the range drawn at random.
    pub fn random_arbitrary(&self) -> (r: (i32, u32))
        ensures
            self.start() <= r.0 <= self.end(),
            r.1 == 32,
    {
        (random_i32_in(&self.rng, self.start_range, self.last()), 32)
    }

    /// Replaces `value` by the value generated at `step`, as `ordered_arbitrary` does,
    /// and gives back the old value.
    pub fn ordered_mutate(&self, value: &mut i32, step: &mut u64, max_cplx: u32) -> (r: Option<(i32, u32)>)
        ensures
            max_cplx < 32 || *old(step) > self.len() ==> {
                &&& r is None
                &&& *final(step) == *old(step)
                &&& *final(value) == *old(value)
            },
            !(max_cplx < 32 || *old(step) > self.len()) ==> {
                &&& r == Some((*old(value), 32u32))
                &&& *final(value) == ordered_value(self.start(), self.len(), *old(step) as int)
                &&& self.start() <= *final(value) <= self.end()
                &&& *final(step) == next_step(*old(step))
            },
    {
        proof {
            use_type_invariant(self);
        }
        if max_cplx < 32 {
            return None;
        }
        if *step > self.len_range as u64 {
            return None;
        }
        let token = *value;
        proof {
            lemma_step_gives_value_in_range(0, self.len() as int, *step as int);
        }
        let result = binary_search_arbitrary_u32(0, self.len_range, *step);
        *value = self.at_offset(result);
        *step = step.wrapping_add(1);
        Some((token, 32))
    }

    /// Replaces `value` by a value of the range drawn at random, and gives back the old
    /// value.
    pub fn random_mutate(&self, value: &mut i32) -> (r: (i32, u32))
        ensures
            r == (*old(value), 32u32),
            self.start() <= *final(value) <= self.end(),
    {
        let token = *value;
        *value = random_i32_in(&self.rng, self.start_range, self.last());
        (token, 32)
    }

    /// Puts back the value `t` that a mutation replaced.
    pub fn unmutate(&self, value: &mut i32, t: i32)
        ensures
            *final(value) == t,
    {
        *value = t;
    }
}

/// The integers of type `i64` within a range; the values are generated in the order of
/// `binary_search_arbitrary` over the range.
pub struct I64WithinRangeMutator {
    start_range: i64,
    len_range: u64,
    search_space_complexity: u32,
    rng: fastrand::Rng,
}

/// The first value admitted by a start bound of `i64` values.
pub open spec fn start_of_i64(b: Bound<i64>) -> int {
    match b {
        Bound::Included(x) => x as int,
        Bound::Excluded(x) => x + 1,
        Bound::Unbounded => i64::MIN as int,
    }
}

/// The last value admitted by an end bound of `i64` values.
pub open spec fn end_of_i64(b: Bound<i64>) -> int {
    match b {
        Bound::Included(x) => x as int,
        Bound::Excluded(x) => x - 1,
        Bound::Unbounded => i64::MAX as int,
    }
}

/// The bounds admit at least one value (an excluded bound at the edge of the type admits
/// none).
pub open spec fn admits_values_i64(start: Bound<i64>, end: Bound<i64>) -> bool {
    &&& start != Bound::Excluded(i64::MAX)
    &&& end != Bound::Excluded(i64::MIN)
    &&& start_of_i64(start) <= end_of_i64(end)
}

impl I64WithinRangeMutator {
    #[verifier::type_invariant]
    spec fn inv(&self) -> bool {
        &&& self.start_range + self.len_range <= i64::MAX
        &&& self.search_space_complexity == size_cplxity(self.len_range as usize)
    }

    /// The least value of the range.
    pub closed spec fn start(&self) -> int {
        self.start_range as int
    }

    /// The number of values of the range, minus one.
    pub closed spec fn len(&self) -> int {
        self.len_range as int
    }

    /// The greatest value of the range.
    pub open spec fn end(&self) -> int {
        self.start() + self.len()
    }

    /// The mutator of the values between the bounds `start` and `end`.
    pub fn new(start: Bound<i64>, end: Bound<i64>) -> (m: Self)
        requires
            admits_values_i64(start, end),
        ensures
            m.start() == start_of_i64(start),
            m.end() == end_of_i64(end),
    {
        let first: i64 = match start {
            Bound::Included(b) => b,
            Bound::Excluded(b) => b + 1,
            Bound::Unbounded => i64::MIN,
        };
        let last: i64 = match end {
            Bound::Included(b) => b,
            Bound::Excluded(b) => b - 1,
            Bound::Unbounded => i64::MAX,
        };
        let length = (last as i128 - first as i128) as u64;
        I64WithinRangeMutator {
            start_range: first,
            len_range: length,
            search_space_complexity: size_to_cplxity(length as usize),
            rng: new_rng(),
        }
    }

    /// The value of the range at `offset` from its start.
    fn at_offset(&self, offset: u64) -> (v: i64)
        requires
            offset <= self.len(),
        ensures
            v == self.start() + offset,
    {
        proof {
            use_type_invariant(self);
        }
        (self.start_range as i128 + offset as i128) as i64
    }

    /// The greatest value of the range.
    fn last(&self) -> (v: i64)
        ensures
            v == self.end(),
    {
        proof {
            use_type_invariant(self);
        }
        self.at_offset(self.len_range)
    }

    /// Whether `value` is within the range.
    pub fn is_valid(&self, value: &i64) -> (b: bool)
        ensures
            b == (self.start() <= *value <= self.end()),
    {
        self.start_range <= *value && *value <= self.last()
    }

    /// `Some(())`, the cache of a value, when it is within the range.
    pub fn validate_value(&self, value: &i64) -> (c: Option<()>)
        ensures
            c is Some <==> self.start() <= *value <= self.end(),
    {
        if self.is_valid(value) {
            Some(())
        } else {
            None
        }
    }

    /// The generation in order starts at step 0.
    pub fn default_arbitrary_step(&self) -> (step: u64)
        ensures
            step == 0,
    {
        0
    }

    /// The mutations in order start at step 0.
    pub fn default_mutation_step(&self, value: &i64) -> (step: u64)
        ensures
            step == 0,
    {
        0
    }

    /// The complexity of choosing a value of the range.
    pub fn global_search_space_complexity(&self) -> (c: u32)
        ensures
            c == size_cplxity(self.len() as usize),
    {
        proof {
            use_type_invariant(self);
        }
        self.search_space_complexity
    }

    /// The greatest complexity of a value: its number of bits.
    pub fn max_complexity(&self) -> (c: u32)
        ensures
            c == 64,
    {
        64
    }

    /// The least complexity of a value: its number of bits.
    pub fn min_complexity(&self) -> (c: u32)
        ensures
            c == 64,
    {
        64
    }

    /// The complexity of a value: its number of bits.
    pub fn complexity(&self, value: &i64) -> (c: u32)
        ensures
            c == 64,
    {
        64
    }

    /// The value generated at `step`, when the greatest complexity `max_cplx` admits a
    /// value and the steps of the range are not exhausted; the step then moves on.
    pub fn ordered_arbitrary(&self, step: &mut u64, max_cplx: u32) -> (r: Option<(i64, u32)>)
        ensures
            max_cplx < 64 || *old(step) > self.len() ==> r is None && *final(step) == *old(step),
            !(max_cplx < 64 || *old(step) > self.len()) ==> {
                &&& r matches Some((v, c)) && v == ordered_value(self.start(), self.len(), *old(step) as int) && c == 64
                &&& r matches Some((v, c)) && self.start() <= v <= self.end()
                &&& *final(step) == next_step(*old(step))
            },
    {
        proof {
            use_type_invariant(self);
        }
        if max_cplx < 64 {
            return None;
        }
        if *step > self.len_range as u64 {
            None
        } else {
            proof {
                lemma_step_gives_value_in_range(0, self.len() as int, *step as int);
            }
            let result = binary_search_arbitrary_u64(0, self.len_range, *step);
            *step = step.wrapping_add(1);
            Some((self.at_offset(result), 64))
        }
    }

    /// A value of the range drawn at random.
    pub fn random_arbitrary(&self) -> (r: (i64, u32))
        ensures
            self.start() <= r.0 <= self.end(),
            r.1 == 64,
    {
        (random_i64_in(&self.rng, self.start_range, self.last()), 64)
    }

    /// Replaces `value` by the value generated at `step`, as `ordered_arbitrary` does,
    /// and gives back the old value.
    pub fn ordered_mutate(&self, value: &mut i64, step: &mut u64, max_cplx: u32) -> (r: Option<(i64, u32)>)
        ensures
            max_cplx < 64 || *old(step) > self.len() ==> {
                &&& r is None
                &&& *final(step) == *old(step)
                &&& *final(value) == *old(value)
            },
            !(max_cplx < 64 || *old(step) > self.len()) ==> {
                &&& r == Some((*old(value), 64u32))
                &&& *final(value) == ordered_value(self.start(), self.len(), *old(step) as int)
                &&& self.start() <= *final(value) <= self.end()
                &&& *final(step) == next_step(*old(step))
            },
    {
        proof {
            use_type_invariant(self);
        }
        if max_cplx < 64 {
            return None;
        }
        if *step > self.len_range as u64 {
            return None;
        }
        let token = *value;
        proof {
            lemma_step_gives_value_in_range(0, self.len() as int, *step as int);
        }
        let result = binary_search_arbitrary_u64(0, self.len_range, *step);
        *value = self.at_offset(result);
        *step = step.wrapping_add(1);
        Some((token, 64))
    }

    /// Replaces `value` by a value of the range drawn at random, and gives back the old
    /// value.
    pub fn random_mutate(&self, value: &mut i64) -> (r: (i64, u32))
        ensures
            r == (*old(value), 64u32),
            self.start() <= *final(value) <= self.end(),
    {
        let token = *value;
        *value = random_i64_in(&self.rng, self.start_range, self.last());
        (token, 64)
    }

    /// Puts back the value `t` that a mutation replaced.
    pub fn unmutate(&self, value: &mut i64, t: i64)
        ensures
            *final(value) == t,
    {
        *value = t;
    }
}

} // verus!
