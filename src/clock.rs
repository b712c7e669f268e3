use vstd::prelude::*;

verus! {

/// Width, in seconds, of the buckets in which messages are counted.
///
/// A resolution of 30 counts the messages of each channel in spans of 30 seconds.
pub const RESOLUTION: i64 = 30;

/// Start of the bucket of width `resolution` that holds `timestamp`.
pub open spec fn bucket_start(timestamp: int, resolution: int) -> int {
    timestamp - timestamp % resolution
}

/// Maps a UNIX timestamp to the start of its bucket at the given resolution.
pub fn bucket_of(timestamp: i64, resolution: i64) -> (r: i64)
    requires
        timestamp >= 0,
        resolution > 0,
    ensures
        r == bucket_start(timestamp as int, resolution as int),
        0 <= r <= timestamp,
        timestamp - r < resolution,
        r % resolution == 0,
{
    proof {
        lemma_bucket_start_aligned(timestamp as int, resolution as int);
    }
    timestamp - timestamp % resolution
}

/// The start of a bucket is a multiple of the resolution, and lies less than
/// one resolution before the timestamp.
pub proof fn lemma_bucket_start_aligned(timestamp: int, resolution: int)
    requires
        timestamp >= 0,
        resolution > 0,
    ensures
        bucket_start(timestamp, resolution) % resolution == 0,
        0 <= bucket_start(timestamp, resolution) <= timestamp,
        timestamp - bucket_start(timestamp, resolution) < resolution,
{
    vstd::arithmetic::div_mod::lemma_fundamental_div_mod(timestamp, resolution);
    vstd::arithmetic::div_mod::lemma_mod_multiples_basic(timestamp / resolution, resolution);
    vstd::arithmetic::div_mod::lemma_div_pos_is_pos(timestamp, resolution);
    assert(bucket_start(timestamp, resolution) == resolution * (timestamp / resolution));
    vstd::arithmetic::mul::lemma_mul_nonnegative(resolution, timestamp / resolution);
    assert((timestamp / resolution) * resolution == resolution * (timestamp / resolution)) by (nonlinear_arith);
}

/// Taking the bucket of a bucket start gives the same bucket start again.
pub proof fn lemma_bucket_of_idempotent(timestamp: int, resolution: int)
    requires
        timestamp >= 0,
        resolution > 0,
    ensures
        bucket_start(bucket_start(timestamp, resolution), resolution) == bucket_start(
            timestamp,
            resolution,
        ),
{
    lemma_bucket_start_aligned(timestamp, resolution);
}

} // verus!
