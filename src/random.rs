use vstd::prelude::*;
use rand::rngs::StdRng;
use rand::Rng;

verus! {

#[verifier::external_type_specification]
#[verifier::external_body]
pub struct ExStdRng(StdRng);

/// Relies on rand's `Rng::gen_range` over `lo..hi`: a value in that range.
/// It panics on an empty range, which `requires` leaves out.
#[verifier::external_body]
pub(crate) fn draw_in_range(rng: &mut StdRng, lo: i64, hi: i64) -> (r: i64)
    requires
        lo < hi,
    ensures
        lo <= r < hi,
{
    rng.gen_range(lo..hi)
}

/// Relies on rand's `Rng::gen` for `u32`: 32 random bits, of which nothing
/// is known in advance.
#[verifier::external_body]
pub(crate) fn draw_bits(rng: &mut StdRng) -> (r: u32) {
    rng.gen::<u32>()
}

} // verus!
