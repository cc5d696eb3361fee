//! The one source of chance that the core draws from itself.

use rand::distributions::{Distribution, Uniform};
use std::ops::Range;
use vstd::prelude::*;

verus! {

/// Draws from `rand`'s `Uniform::from(low..high)` with the thread's
/// generator, `rand::thread_rng()`.
///
/// `Uniform::from` forwards to `Uniform::new`, which samples "from the half
/// open range `[low, high)`" and panics "if `low >= high`". The contract
/// claims that range for every draw and nothing about which value comes.
#[verifier::external_body]
fn sample_uniform(low: usize, high: usize) -> (r: usize)
    requires
        low < high,
    ensures
        low <= r < high,
{
    Uniform::from(low..high).sample(&mut rand::thread_rng())
}

/// A whole number drawn uniformly from `range`, whose end is excluded.
///
/// Two calls on one range may differ; all that is known of the result is
/// that it lies in the range.
pub fn random_int(range: Range<usize>) -> (r: usize)
    requires
        range.start < range.end,
    ensures
        range.start <= r < range.end,
{
    sample_uniform(range.start, range.end)
}

/// A whole number drawn uniformly from `range`, or nothing where the range
/// is empty.
pub fn random_int_checked(range: Range<usize>) -> (r: Option<usize>)
    ensures
        r is Some <==> range.start < range.end,
        r matches Some(n) ==> range.start <= n < range.end,
{
    if range.start < range.end {
        Some(random_int(range))
    } else {
        None
    }
}

} // verus!
