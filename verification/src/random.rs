//! The random number generator of the mutators, `fastrand::Rng`, and the draws they make.

use vstd::prelude::*;

verus! {

/// The random number generator of `fastrand`, opaque here.
#[verifier::external_type_specification]
#[verifier::external_body]
pub struct ExRng(fastrand::Rng);

/// `fastrand::Rng::usize` over `low..=high`: a number in that range, chosen at random
/// (fastrand panics on an empty range, which `requires` leaves out). Which number comes
/// out is not claimed.
#[verifier::external_body]
pub(crate) fn random_usize_in(rng: &fastrand::Rng, low: usize, high: usize) -> (r: usize)
    requires
        low <= high,
    ensures
        low <= r <= high,
{
    rng.usize(low..=high)
}

/// `fastrand::Rng::new`: a generator seeded from the thread's generator. Nothing is
/// claimed of it.
#[verifier::external_body]
pub(crate) fn new_rng() -> fastrand::Rng {
    fastrand::Rng::new()
}

/// `fastrand::Rng::u8` over `low..=high`: a number in that range, chosen at random
/// (the call panics on an empty range, which `requires` leaves out). Which number comes out
/// is not claimed.
#[verifier::external_body]
pub(crate) fn random_u8_in(rng: &fastrand::Rng, low: u8, high: u8) -> (r: u8)
    requires
        low <= high,
    ensures
        low <= r <= high,
{
    rng.u8(low..=high)
}

/// `fastrand::Rng::u16` over `low..=high`: a number in that range, chosen at random
/// (the call panics on an empty range, which `requires` leaves out). Which number comes out
/// is not claimed.
#[verifier::external_body]
pub(crate) fn random_u16_in(rng: &fastrand::Rng, low: u16, high: u16) -> (r: u16)
    requires
        low <= high,
    ensures
        low <= r <= high,
{
    rng.u16(low..=high)
}

/// `fastrand::Rng::u32` over `low..=high`: a number in that range, chosen at random
/// (the call panics on an empty range, which `requires` leaves out). Which number comes out
/// is not claimed.
#[verifier::external_body]
pub(crate) fn random_u32_in(rng: &fastrand::Rng, low: u32, high: u32) -> (r: u32)
    requires
        low <= high,
    ensures
        low <= r <= high,
{
    rng.u32(low..=high)
}

/// `fastrand::Rng::u64` over `low..=high`: a number in that range, chosen at random
/// (the call panics on an empty range, which `requires` leaves out). Which number comes out
/// is not claimed.
#[verifier::external_body]
pub(crate) fn random_u64_in(rng: &fastrand::Rng, low: u64, high: u64) -> (r: u64)
    requires
        low <= high,
    ensures
        low <= r <= high,
{
    rng.u64(low..=high)
}

/// `fastrand::Rng::i8` over `low..=high`: a number in that range, chosen at random
/// (the call panics on an empty range, which `requires` leaves out). Which number comes out
/// is not claimed.
#[verifier::external_body]
pub(crate) fn random_i8_in(rng: &fastrand::Rng, low: i8, high: i8) -> (r: i8)
    requires
        low <= high,
    ensures
        low <= r <= high,
{
    rng.i8(low..=high)
}

/// `fastrand::Rng::i16` over `low..=high`: a number in that range, chosen at random
/// (the call panics on an empty range, which `requires` leaves out). Which number comes out
/// is not claimed.
#[verifier::external_body]
pub(crate) fn random_i16_in(rng: &fastrand::Rng, low: i16, high: i16) -> (r: i16)
    requires
        low <= high,
    ensures
        low <= r <= high,
{
    rng.i16(low..=high)
}

/// `fastrand::Rng::i32` over `low..=high`: a number in that range, chosen at random
/// (the call panics on an empty range, which `requires` leaves out). Which number comes out
/// is not claimed.
#[verifier::external_body]
pub(crate) fn random_i32_in(rng: &fastrand::Rng, low: i32, high: i32) -> (r: i32)
    requires
        low <= high,
    ensures
        low <= r <= high,
{
    rng.i32(low..=high)
}

/// `fastrand::Rng::i64` over `low..=high`: a number in that range, chosen at random
/// (the call panics on an empty range, which `requires` leaves out). Which number comes out
/// is not claimed.
#[verifier::external_body]
pub(crate) fn random_i64_in(rng: &fastrand::Rng, low: i64, high: i64) -> (r: i64)
    requires
        low <= high,
    ensures
        low <= r <= high,
{
    rng.i64(low..=high)
}

} // verus!
