//! The mutator of `bool`: in order, `false` then `true`; a mutation flips the value.

use crate::random::new_rng;
use vstd::prelude::*;

verus! {

/// `fastrand::Rng::bool`: `true` or `false`, at random. Nothing is claimed of which.
#[verifier::external_body]
fn random_bool(rng: &fastrand::Rng) -> bool {
    rng.bool()
}

/// The mutator of `bool`.
pub struct BoolMutator {
    rng: fastrand::Rng,
}

/// How many values the generation in order has given.
#[derive(Debug, Clone, Copy, PartialEq, Eq)]
pub enum ArbitraryStep {
    Never,
    Once,
    Twice,
}

impl Default for ArbitraryStep {
    /// Nothing generated yet.
    fn default() -> (s: ArbitraryStep)
        ensures
            s == ArbitraryStep::Never,
    {
        ArbitraryStep::Never
    }
}

/// The complexity of a `bool`, in bits.
pub const BOOL_COMPLEXITY: u32 = 1;

impl BoolMutator {
    /// A mutator of `bool`.
    pub fn new() -> (m: BoolMutator) {
        BoolMutator { rng: new_rng() }
    }

    /// The generation in order starts with nothing generated.
    pub fn default_arbitrary_step(&self) -> (step: ArbitraryStep)
        ensures
            step == ArbitraryStep::Never,
    {
        ArbitraryStep::default()
    }

    /// Every `bool` is valid.
    pub fn is_valid(&self, value: &bool) -> (b: bool)
        ensures
            b,
    {
        true
    }

    /// Every `bool` is valid; its cache is `()`.
    pub fn validate_value(&self, value: &bool) -> (c: Option<()>)
        ensures
            c is Some,
    {
        Some(())
    }

    /// The mutations in order start with the value not flipped yet.
    pub fn default_mutation_step(&self, value: &bool) -> (step: bool)
        ensures
            !step,
    {
        false
    }

    /// The complexity of choosing a `bool`: one bit.
    pub fn global_search_space_complexity(&self) -> (c: u32)
        ensures
            c == 1,
    {
        1
    }

    /// The greatest complexity of a `bool`.
    pub fn max_complexity(&self) -> (c: u32)
        ensures
            c == BOOL_COMPLEXITY,
    {
        BOOL_COMPLEXITY
    }

    /// The least complexity of a `bool`.
    pub fn min_complexity(&self) -> (c: u32)
        ensures
            c == BOOL_COMPLEXITY,
    {
        BOOL_COMPLEXITY
    }

    /// The complexity of a `bool`.
    pub fn complexity(&self, value: &bool) -> (c: u32)
        ensures
            c == BOOL_COMPLEXITY,
    {
        BOOL_COMPLEXITY
    }

    /// In order: `false`, then `true`, then nothing, when the greatest complexity admits
    /// a `bool`.
    pub fn ordered_arbitrary(&self, step: &mut ArbitraryStep, max_cplx: u32) -> (r: Option<(bool, u32)>)
        ensures
            max_cplx < BOOL_COMPLEXITY ==> r is None && *final(step) == *old(step),
            max_cplx >= BOOL_COMPLEXITY ==> match *old(step) {
                ArbitraryStep::Never => r == Some((false, BOOL_COMPLEXITY)) && *final(step) == ArbitraryStep::Once,
                ArbitraryStep::Once => r == Some((true, BOOL_COMPLEXITY)) && *final(step) == ArbitraryStep::Twice,
                ArbitraryStep::Twice => r is None && *final(step) == ArbitraryStep::Twice,
            },
    {
        if max_cplx < BOOL_COMPLEXITY {
            return None;
        }
        match *step {
            ArbitraryStep::Never => {
                *step = ArbitraryStep::Once;
                Some((false, BOOL_COMPLEXITY))
            },
            ArbitraryStep::Once => {
                *step = ArbitraryStep::Twice;
                Some((true, BOOL_COMPLEXITY))
            },
            ArbitraryStep::Twice => None,
        }
    }

    /// A `bool` drawn at random.
    pub fn random_arbitrary(&self) -> (r: (bool, u32))
        ensures
            r.1 == BOOL_COMPLEXITY,
    {
        (random_bool(&self.rng), BOOL_COMPLEXITY)
    }

    /// The only mutation in order flips the value, once, when the greatest complexity
    /// admits a `bool`; gives back the old value.
    pub fn ordered_mutate(&self, value: &mut bool, step: &mut bool, max_cplx: u32) -> (r: Option<(bool, u32)>)
        ensures
            max_cplx >= BOOL_COMPLEXITY && !*old(step) ==> {
                &&& r == Some((*old(value), BOOL_COMPLEXITY))
                &&& *final(value) == !*old(value)
                &&& *final(step)
            },
            !(max_cplx >= BOOL_COMPLEXITY && !*old(step)) ==> r is None && *final(value) == *old(value)
                && *final(step) == *old(step),
    {
        if max_cplx < BOOL_COMPLEXITY {
            return None;
        }
        if !*step {
            *step = true;
            let old_value = *value;
            *value = !old_value;
            Some((old_value, BOOL_COMPLEXITY))
        } else {
            None
        }
    }

    /// Flips the value and gives back the old one.
    pub fn random_mutate(&self, value: &mut bool) -> (r: (bool, u32))
        ensures
            r == (*old(value), BOOL_COMPLEXITY),
            *final(value) == !*old(value),
    {
        let old_value = *value;
        *value = !old_value;
        (old_value, BOOL_COMPLEXITY)
    }

    /// A crossover of a `bool` is a random mutation.
    pub fn crossover_mutate(&self, value: &mut bool) -> (r: (bool, u32))
        ensures
            r == (*old(value), BOOL_COMPLEXITY),
            *final(value) == !*old(value),
    {
        self.random_mutate(value)
    }

    /// Puts back the value `t` that a mutation replaced.
    pub fn unmutate(&self, value: &mut bool, t: bool)
        ensures
            *final(value) == t,
    {
        *value = t;
    }
}

} // verus!
