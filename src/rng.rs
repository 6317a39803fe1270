use vstd::prelude::*;
use bevy_turborand::prelude::GlobalRng;
use bevy_turborand::DelegatedRng;

verus! {

#[verifier::external_type_specification]
#[verifier::external_body]
pub struct ExGlobalRng(GlobalRng);

/// Relies on bevy_turborand's `DelegatedRng::usize` (turborand's ranged draw):
/// the value lies in `lo..hi`; the draw panics on an empty range, so `lo < hi`.
#[verifier::external_body]
pub(crate) fn draw_in(rng: &mut GlobalRng, lo: usize, hi: usize) -> (r: usize)
    requires
        lo < hi,
    ensures
        lo <= r < hi,
{
    rng.usize(lo..hi)
}

} // verus!
