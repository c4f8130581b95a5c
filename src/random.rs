use rand::Rng;
use rand::rngs::StdRng;
use vstd::prelude::*;

verus! {

/// The generator that every random choice of the library draws from; callers
/// own it and pass it in, so no hidden shared state is involved.
#[verifier::external_type_specification]
#[verifier::external_body]
pub struct ExStdRng(StdRng);

/// Relies on rand's `Rng::gen_range` over `0..bound`: the value drawn lies in
/// that range; the call panics on an empty range, which `requires` leaves out.
#[verifier::external_body]
pub(crate) fn random_below(rng: &mut StdRng, bound: usize) -> (r: usize)
    requires
        bound > 0,
    ensures
        r < bound,
{
    rng.gen_range(0..bound)
}

} // verus!
