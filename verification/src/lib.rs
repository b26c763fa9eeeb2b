//! Verified building blocks of a structure-aware fuzzing engine: grammars and their
//! parser, vector mutations that can be reverted, and mutators of integers, characters
//! and booleans.

pub mod bool;
pub mod bounds;
pub mod char;
pub mod character_classes;
pub mod grammar;
pub mod integer;
pub mod integer_within_range;
pub mod mutations;
pub mod random;
pub mod range;
pub mod vector;
