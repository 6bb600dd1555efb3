//! Feature flags and experiments, evaluated locally.
//!
//! Given the attributes of a user and a set of feature definitions, the
//! library decides which value each feature takes and which variation of an
//! experiment the user sees. Every decision is a function of its inputs.

pub mod condition;
pub mod growthbook;
pub mod lookup;
pub mod model;
pub mod number;
pub mod repository;
pub mod text;
pub mod util;
pub mod value;
pub mod version;

use vstd::prelude::*;

verus! {

/// The sum of two sizes.
pub fn add(left: usize, right: usize) -> (sum: usize)
    requires
        left + right <= usize::MAX,
    ensures
        sum == left + right,
{
    left + right
}

} // verus!
