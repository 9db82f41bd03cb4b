//! The random number generator the library draws from.
use vstd::prelude::*;
use rand::Rng;

verus! {

/// rand's `rngs::StdRng`, which the library only carries and draws from.
#[verifier::external_type_specification]
#[verifier::external_body]
pub struct ExStdRng(rand::rngs::StdRng);

/// Relies on rand's `Rng::gen_range` on the half-open range `lo..hi`: the
/// value lies in that range. It panics on an empty range, which `requires`
/// leaves out.
#[verifier::external_body]
pub(crate) fn draw_in(rng: &mut rand::rngs::StdRng, lo: usize, hi: usize) -> (r: usize)
    requires
        lo < hi,
    ensures
        lo <= r < hi,
{
    rng.gen_range(lo..hi)
}

} // verus!
