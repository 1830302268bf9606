//! The grid's source of random positions, drawn from the operating system.
use rand::Rng;
use vstd::prelude::*;

verus! {

#[verifier::external_type_specification]
#[verifier::external_body]
pub struct ExOsRng(rand::rngs::OsRng);

/// Relies on `rand::rngs::OsRng` being a unit value that reads the
/// operating system's generator on every draw.
#[verifier::external_body]
pub(crate) fn os_rng() -> rand::rngs::OsRng {
    rand::rngs::OsRng
}

/// Relies on `rand::Rng::gen_range(low, high)` of rand 0.7, which returns a
/// value in `[low, high)` and panics only when `low >= high`. (`OsRng`
/// itself panics if the operating system cannot supply randomness.)
#[verifier::external_body]
pub(crate) fn random_below(rng: &mut rand::rngs::OsRng, bound: u32) -> (r: u32)
    requires
        bound > 0,
    ensures
        r < bound,
{
    rng.gen_range(0, bound)
}

} // verus!
