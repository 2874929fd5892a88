//! Draws from the thread-local random generator of `rand`.
use vstd::prelude::*;

verus! {

/// Relies on rand::random: a uniformly drawn value; nothing is known of it.
pub assume_specification<T>[ rand::random::<T> ]() -> (r: T)
    where
        rand::distr::StandardUniform: rand::distr::Distribution<T>,
;

/// Relies on rand::random_range: a value drawn from `lo..hi`, which must not be
/// empty (the call panics on an empty range).
#[verifier::external_body]
pub(crate) fn random_in(lo: u32, hi: u32) -> (r: u32)
    requires
        lo < hi,
    ensures
        lo <= r < hi,
{
    rand::random_range(lo..hi)
}

/// Relies on rand::random_ratio: true with probability `numerator / denominator`;
/// always false for a zero numerator, always true when both are equal. It panics
/// on a zero denominator or a numerator above the denominator.
#[verifier::external_body]
pub(crate) fn random_ratio(numerator: u32, denominator: u32) -> (r: bool)
    requires
        0 < denominator,
        numerator <= denominator,
    ensures
        numerator == 0 ==> !r,
        numerator == denominator ==> r,
{
    rand::random_ratio(numerator, denominator)
}

} // verus!
