//! Random choices, drawn from the thread-local generator of `rand`.
use vstd::prelude::*;
use rand::Rng;

verus! {

/// Relies on `rand::Rng::gen_range(low, high)` on `rand::thread_rng()`: a
/// value from `low` up to, but not including, `high`; it panics when
/// `low >= high`.
#[verifier::external_body]
pub(crate) fn random_below(high: usize) -> (r: usize)
    requires
        high > 0,
    ensures
        r < high,
{
    rand::thread_rng().gen_range(0, high)
}

/// Relies on `rand::Rng::gen_ratio(numerator, denominator)` on
/// `rand::thread_rng()`: `true` with chance `numerator / denominator`, always
/// `true` when the two are equal and always `false` when `numerator` is zero;
/// it panics when `denominator` is zero or below `numerator`.
#[verifier::external_body]
pub(crate) fn random_ratio(numerator: u32, denominator: u32) -> (r: bool)
    requires
        0 < denominator,
        numerator <= denominator,
    ensures
        numerator == 0 ==> !r,
        numerator == denominator ==> r,
{
    rand::thread_rng().gen_ratio(numerator, denominator)
}

} // verus!
