//! The order in which the integers of a range are generated: the middle of the range
//! first, then, in turn, the middles of its upper and lower halves, and so on, so that
//! the first values spread over the whole range.

use vstd::prelude::*;

verus! {

/// The value generated at `step` in `low..=high`: the middle `next` at step 0, then the
/// odd steps go through the values above `next` and the even ones through those below
/// it, in the same order. A range of two values gives `high` first.
pub open spec fn binary_search_arbitrary(low: int, high: int, step: int) -> int
    decreases high - low,
{
    let next = low + (high - low) / 2;
    if low + 1 >= high {
        if step % 2 == 0 && high != next {
            high
        } else {
            low
        }
    } else if step == 0 {
        next
    } else if step % 2 == 1 {
        binary_search_arbitrary(next + 1, high, step / 2)
    } else {
        binary_search_arbitrary(low, next - 1, (step - 1) / 2)
    }
}

/// The step at which `binary_search_arbitrary` generates `v` in `low..=high`.
pub open spec fn binary_search_step(low: int, high: int, v: int) -> int
    decreases high - low,
{
    let next = low + (high - low) / 2;
    if low + 1 >= high {
        if v == high && high != low {
            0
        } else if high != low {
            1
        } else {
            0
        }
    } else if v == next {
        0
    } else if v > next {
        2 * binary_search_step(next + 1, high, v) + 1
    } else {
        2 * binary_search_step(low, next - 1, v) + 2
    }
}

/// Each step of `0..=high - low` generates a value of `low..=high`, and the step is
/// found again from the value.
pub proof fn lemma_step_gives_value_in_range(low: int, high: int, step: int)
    requires
        low <= high,
        0 <= step <= high - low,
    ensures
        low <= binary_search_arbitrary(low, high, step) <= high,
        binary_search_step(low, high, binary_search_arbitrary(low, high, step)) == step,
    decreases high - low,
{
    let next = low + (high - low) / 2;
    if low + 1 >= high {
    } else if step == 0 {
    } else if step % 2 == 1 {
        lemma_step_gives_value_in_range(next + 1, high, step / 2);
    } else {
        lemma_step_gives_value_in_range(low, next - 1, (step - 1) / 2);
    }
}

/// Each value of `low..=high` is generated at a step of `0..=high - low`.
pub proof fn lemma_value_has_step(low: int, high: int, v: int)
    requires
        low <= v <= high,
    ensures
        0 <= binary_search_step(low, high, v) <= high - low,
        binary_search_arbitrary(low, high, binary_search_step(low, high, v)) == v,
    decreases high - low,
{
    let next = low + (high - low) / 2;
    if low + 1 >= high {
    } else if v == next {
    } else if v > next {
        lemma_value_has_step(next + 1, high, v);
        let s = binary_search_step(next + 1, high, v);
        assert((2 * s + 1) % 2 == 1 && (2 * s + 1) / 2 == s);
    } else {
        lemma_value_has_step(low, next - 1, v);
        let s = binary_search_step(low, next - 1, v);
        assert((2 * s + 2) % 2 == 0 && (2 * s + 2 - 1) / 2 == s);
    }
}

/// The steps `0..=high - low` generate every value of `low..=high`, each one once: each
/// value `v` at the step `binary_search_step(low, high, v)`.
pub proof fn lemma_binary_search_arbitrary_enumerates(low: int, high: int)
    requires
        low <= high,
    ensures
        forall|s: int|
            0 <= s <= high - low ==> low <= #[trigger] binary_search_arbitrary(low, high, s) <= high,
        forall|s1: int, s2: int|
            0 <= s1 <= high - low && 0 <= s2 <= high - low && #[trigger] binary_search_arbitrary(low, high, s1)
                == #[trigger] binary_search_arbitrary(low, high, s2) ==> s1 == s2,
        forall|v: int|
            low <= v <= high ==> 0 <= #[trigger] binary_search_step(low, high, v) <= high - low
                && binary_search_arbitrary(low, high, binary_search_step(low, high, v)) == v,
{
    assert forall|s: int| 0 <= s <= high - low implies low <= #[trigger] binary_search_arbitrary(low, high, s) <= high by {
        lemma_step_gives_value_in_range(low, high, s);
    }
    assert forall|s1: int, s2: int|
        0 <= s1 <= high - low && 0 <= s2 <= high - low && #[trigger] binary_search_arbitrary(low, high, s1)
            == #[trigger] binary_search_arbitrary(low, high, s2) implies s1 == s2 by {
        lemma_step_gives_value_in_range(low, high, s1);
        lemma_step_gives_value_in_range(low, high, s2);
    }
    assert forall|v: int| low <= v <= high implies 0 <= #[trigger] binary_search_step(low, high, v) <= high - low
        && binary_search_arbitrary(low, high, binary_search_step(low, high, v)) == v by {
        lemma_value_has_step(low, high, v);
    }
}

/// `binary_search_arbitrary` on `u8`.
pub fn binary_search_arbitrary_u8(low: u8, high: u8, step: u64) -> (r: u8)
    requires
        low <= high,
        step <= high - low,
    ensures
        r == binary_search_arbitrary(low as int, high as int, step as int),
{
    proof {
        lemma_step_gives_value_in_range(low as int, high as int, step as int);
    }
    let r = binary_search_arbitrary_u64(low as u64, high as u64, step);
    r as u8
}

/// `binary_search_arbitrary` on `u16`.
pub fn binary_search_arbitrary_u16(low: u16, high: u16, step: u64) -> (r: u16)
    requires
        low <= high,
        step <= high - low,
    ensures
        r == binary_search_arbitrary(low as int, high as int, step as int),
{
    proof {
        lemma_step_gives_value_in_range(low as int, high as int, step as int);
    }
    let r = binary_search_arbitrary_u64(low as u64, high as u64, step);
    r as u16
}

/// `binary_search_arbitrary` on `u32`.
pub fn binary_search_arbitrary_u32(low: u32, high: u32, step: u64) -> (r: u32)
    requires
        low <= high,
        step <= high - low,
    ensures
        r == binary_search_arbitrary(low as int, high as int, step as int),
{
    proof {
        lemma_step_gives_value_in_range(low as int, high as int, step as int);
    }
    let r = binary_search_arbitrary_u64(low as u64, high as u64, step);
    r as u32
}

/// `binary_search_arbitrary` on `u64`.
pub fn binary_search_arbitrary_u64(low: u64, high: u64, step: u64) -> (r: u64)
    requires
        low <= high,
        step <= high - low,
    ensures
        r == binary_search_arbitrary(low as int, high as int, step as int),
{
    let mut l = low;
    let mut h = high;
    let mut s = step;
    loop
        invariant
            l <= h,
            s <= h - l,
            binary_search_arbitrary(l as int, h as int, s as int) == binary_search_arbitrary(
                low as int,
                high as int,
                step as int,
            ),
        decreases h - l,
    {
        let next = l + (h - l) / 2;
        if h - l <= 1 {
            if s % 2 == 0 && h != next {
                return h;
            } else {
                return l;
            }
        } else if s == 0 {
            return next;
        } else if s % 2 == 1 {
            l = next + 1;
            s = s / 2;
        } else {
            h = next - 1;
            s = (s - 1) / 2;
        }
    }
}

/// The number of bits of `n`: the least `b` with `n < 2^b`.
pub open spec fn bit_length(n: nat) -> nat
    decreases n,
{
    if n == 0 {
        0
    } else {
        1 + bit_length(n / 2)
    }
}

/// Two to the power `k`.
pub open spec fn two_to(k: nat) -> nat
    decreases k,
{
    if k == 0 {
        1
    } else {
        2 * two_to((k - 1) as nat)
    }
}

proof fn lemma_bit_length_le(n: nat, k: nat)
    requires
        n < two_to(k),
    ensures
        bit_length(n) <= k,
    decreases k,
{
    if n > 0 && k > 0 {
        lemma_bit_length_le(n / 2, (k - 1) as nat);
    }
}

/// The complexity of choosing one of `size` values, as `size_to_cplxity` computes it.
pub open spec fn size_cplxity(size: usize) -> nat {
    bit_length(if size == 0 { 0 } else { (size - 1) as nat })
}

/// The complexity of choosing one of `size` values: the number of bits needed to tell
/// them apart, that of `size - 1` (0 for 0 or 1 value).
pub fn size_to_cplxity(size: usize) -> (c: u32)
    ensures
        c == size_cplxity(size),
{
    let mut x: usize = if size == 0 { 0 } else { size - 1 };
    let ghost x0 = x as nat;
    proof {
        reveal_with_fuel(two_to, 65);
        lemma_bit_length_le(x0, 64);
    }
    let mut c: u32 = 0;
    while x > 0
        invariant
            c + bit_length(x as nat) == bit_length(x0),
            c <= 64 - bit_length(x as nat),
            bit_length(x as nat) <= 64,
        decreases x,
    {
        x = x / 2;
        c = c + 1;
    }
    c
}

} // verus!
