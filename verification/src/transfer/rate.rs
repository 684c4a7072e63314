//! Burst of the transfer rate limiter (a token bucket per direction).
//!
//! The bucket itself counts fractional tokens in floating point and lives
//! with the clock outside this library; what is decided here is how much
//! credit it may hoard.
use vstd::prelude::*;

verus! {

/// Smallest burst allowed: below one chunk a low limit would leave the
/// transfer at zero instead of slow.
pub const MIN_BURST: u64 = 262144;

/// The burst the bucket may accumulate: half a second of rate, never less
/// than a chunk.
pub fn burst_for(rate_bps: u64) -> (r: u64)
    ensures
        r == (if rate_bps / 2 >= MIN_BURST { rate_bps / 2 } else { MIN_BURST }),
        r >= MIN_BURST,
{
    let half = rate_bps / 2;
    if half >= MIN_BURST {
        half
    } else {
        MIN_BURST
    }
}

} // verus!
