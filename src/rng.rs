//! The random source used by automatic placement and guessing.
use vstd::prelude::*;

use rand::rngs::StdRng;
use rand::Rng;

verus! {

/// The generator is opaque: nothing is known of the values it yields beyond
/// what `draw_below` states.
#[verifier::external_type_specification]
#[verifier::external_body]
pub struct ExStdRng(StdRng);

/// Relies on `rand::Rng::gen_range` over `0..bound`: a value in that range,
/// which panics on an empty range (hence `bound > 0`).
#[verifier::external_body]
pub(crate) fn draw_below(rng: &mut StdRng, bound: usize) -> (r: usize)
    requires
        bound > 0,
    ensures
        r < bound,
{
    rng.gen_range(0..bound)
}

} // verus!
