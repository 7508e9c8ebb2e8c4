//! The one source of randomness: uniformly drawn machine words from the
//! `rand` crate, reduced to fixed-point fractions by verified code.

use vstd::prelude::*;
use crate::fixed::SCALE;

verus! {

/// Relies on rand::random: a freshly drawn value of `T`.  Nothing can be
/// promised of a random value, so this carries no `ensures`.
pub assume_specification<T>[ rand::random::<T> ]() -> (r: T)
    where
        rand::distributions::Standard: rand::distributions::Distribution<T>,
;

/// A random fixed-point fraction in `[0, 1)`: one of the `SCALE` raw values.
pub fn random_fraction() -> (r: i64)
    ensures
        0 <= r < SCALE,
{
    let w: u64 = rand::random::<u64>();
    (w % 65536) as i64
}

} // verus!
