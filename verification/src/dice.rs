//! Sources of die rolls.
//!
//! The evaluator draws every die through [`RollSource`], whose contract
//! bounds each roll to `1 ..= sides`.  A source may additionally promise, as
//! the spec-level predicate `always_min`, that every roll lands on 1; the
//! evaluator's exact result contract holds under that promise, and
//! [`MinRoller`] realises it for tests and laws.  [`StdRoller`] draws from a
//! seeded-by-entropy PRNG and promises only the bound.
use rand::Rng;
use rand::SeedableRng;
use vstd::prelude::*;

verus! {

/// A supplier of die rolls.
pub trait RollSource: Sized {
    /// True of sources every one of whose rolls lands on the minimum face.
    spec fn always_min(&self) -> bool;

    /// One roll of a die with `sides` faces.
    fn roll(&mut self, sides: i64) -> (r: i64)
        requires
            1 <= sides,
        ensures
            1 <= r <= sides,
            old(self).always_min() ==> r == 1 && final(self).always_min(),
    ;
}

/// A roll source whose every die lands on 1.  It makes dice deterministic:
/// `x` dice of any size sum to `x`.
pub struct MinRoller;

impl RollSource for MinRoller {
    open spec fn always_min(&self) -> bool {
        true
    }

    fn roll(&mut self, sides: i64) -> (r: i64) {
        1
    }
}

#[verifier::external_type_specification]
#[verifier::external_body]
pub struct ExStdRng(rand::rngs::StdRng);

/// Draws one value uniformly from `1 ..= sides`.
///
/// Relies on `rand::Rng::gen_range`: for a non-empty inclusive range it
/// returns a value within the range (and panics only on an empty one, which
/// `1 <= sides` rules out).
#[verifier::external_body]
fn gen_range_one_to(rng: &mut rand::rngs::StdRng, sides: i64) -> (r: i64)
    requires
        1 <= sides,
    ensures
        1 <= r <= sides,
{
    rng.gen_range(1..=sides)
}

/// Builds a standard PRNG seeded from the operating system's entropy.
///
/// Relies on `rand::SeedableRng::from_entropy`; nothing is promised of the
/// state it returns.
#[verifier::external_body]
fn std_rng_from_entropy() -> rand::rngs::StdRng {
    rand::rngs::StdRng::from_entropy()
}

/// A roll source backed by `rand`'s standard PRNG.
pub struct StdRoller {
    rng: rand::rngs::StdRng,
}

impl StdRoller {
    /// A roller seeded from the operating system's entropy.
    pub fn new() -> StdRoller {
        StdRoller { rng: std_rng_from_entropy() }
    }
}

impl RollSource for StdRoller {
    open spec fn always_min(&self) -> bool {
        false
    }

    fn roll(&mut self, sides: i64) -> (r: i64) {
        gen_range_one_to(&mut self.rng, sides)
    }
}

} // verus!
