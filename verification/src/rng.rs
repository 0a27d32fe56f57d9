//! Random choices.

use vstd::prelude::*;

use libafl_bolts::rands::{Rand, StdRand};

verus! {

/// The random number generator of `libafl_bolts`, carried through as it is.
#[verifier::external_type_specification]
#[verifier::external_body]
pub struct ExStdRand(libafl_bolts::rands::StdRand);

/// A generator with a seed of its own, from `StdRand::new` of `libafl_bolts`. Nothing is claimed of
/// it: what it will draw depends on the seed.
#[verifier::external_body]
pub(crate) fn fresh_rng() -> (r: StdRand) {
    StdRand::new()
}

/// Draws a number below `n` with `Rand::below` of `libafl_bolts`. Believed of it: the number lies
/// below the bound. Which one it is depends on the generator, and nothing is claimed of that.
#[verifier::external_body]
pub(crate) fn draw_below(rng: &mut StdRand, n: usize) -> (r: usize)
    requires
        n > 0,
    ensures
        r < n,
{
    rng.below(core::num::NonZeroUsize::new(n).unwrap())
}

} // verus!
