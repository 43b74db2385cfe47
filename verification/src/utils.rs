//! Random scalar sampling.
//!
//! The one call into the `rand` crate lives here; everything built on top of
//! it only assumes that a sample exists, never which value came back.

use vstd::prelude::*;

verus! {

use crate::fixed::SCALE;

/// Relies on rand::random: it returns a sample of any type the standard
/// distribution covers.  Nothing is promised of the value; callers state
/// what holds of every outcome.
pub assume_specification<T>[ rand::random::<T> ]() -> (r: T)
    where
        rand::distributions::Standard: rand::distributions::Distribution<T>,
;

/// Returns a random fixed-point scalar in `[0, 1)`, that is in `[0, SCALE)`.
/// Note: the range is exclusive for 1.
pub fn random_double() -> (r: i64)
    ensures
        0 <= r < SCALE,
{
    let u: u64 = rand::random();
    (u % (SCALE as u64)) as i64
}

/// Returns a random fixed-point scalar in `[lo, hi)`.
pub fn random_double_range(lo: i64, hi: i64) -> (r: i64)
    requires
        lo < hi,
        hi - lo <= i64::MAX,
    ensures
        lo <= r < hi,
{
    let span: u64 = (hi - lo) as u64;
    let u: u64 = rand::random();
    let off: u64 = u % span;
    lo + (off as i64)
}

} // verus!
