use rand::Rng;
use vstd::prelude::*;

verus! {

/// The seedable generator of `rand::rngs::StdRng`, carried through as an
/// opaque value: nothing is assumed of its state.
#[verifier::external_type_specification]
#[verifier::external_body]
pub struct ExStdRng(rand::rngs::StdRng);

/// Relies on `rand::Rng::gen_range` over an inclusive range of `u128`: it panics
/// when `lo > hi` and otherwise returns a value in `lo..=hi`.
#[verifier::external_body]
pub(crate) fn draw_between(rng: &mut rand::rngs::StdRng, lo: u128, hi: u128) -> (r: u128)
    requires
        lo <= hi,
    ensures
        lo <= r <= hi,
{
    rng.gen_range(lo..=hi)
}

} // verus!
