//! Limits on how many points are sampled along the x axis.

use vstd::prelude::*;

verus! {

/// Fewest points a curve is ever sampled at.
pub const MIN_SAMPLES: usize = 64;

/// Most points a curve is ever sampled at.
pub const MAX_SAMPLES: usize = 20000;

/// `n` pulled into the range `[MIN_SAMPLES, MAX_SAMPLES]`.
pub open spec fn clamped(n: int) -> int {
    if n < MIN_SAMPLES {
        MIN_SAMPLES as int
    } else if n > MAX_SAMPLES {
        MAX_SAMPLES as int
    } else {
        n
    }
}

/// Clamp incoming sample counts to a reasonable range.
pub fn clamp_samples(samples: usize) -> (r: usize)
    ensures
        r == clamped(samples as int),
{
    if samples < MIN_SAMPLES {
        MIN_SAMPLES
    } else if samples > MAX_SAMPLES {
        MAX_SAMPLES
    } else {
        samples
    }
}


/// Sample counts are kept in a reasonable range: a clamped count lies in
/// `[MIN_SAMPLES, MAX_SAMPLES]`, a count already there is kept, and clamping
/// twice is clamping once.
pub proof fn law_clamp_range(n: int)
    ensures
        MIN_SAMPLES <= clamped(n) <= MAX_SAMPLES,
        MIN_SAMPLES <= n <= MAX_SAMPLES ==> clamped(n) == n,
        clamped(clamped(n)) == clamped(n),
{
}

} // verus!
